//! The consensus-epoch handlers: storing incoming nonce and signature items,
//! aggregating the round proposals, queueing peg-outs, and the two-round FROST
//! state machine that advances every pending peg-out transaction (nonce
//! gathering, fault detection, share emission, finalization).
use vstd::prelude::*;

use crate::db::alist_find;
use crate::db::alist_has_key;
use crate::db::alist_keys_unique;
use crate::db::alist_remove;
use crate::db::clone_bytes;
use crate::db::utxo_views;
use crate::db::utxos_find;
use crate::frost::frost_gen_nonce;
use crate::frost::frost_public_key_bytes;
use crate::frost::frost_key_into_xonly;
use crate::frost::frost_combine_shares;
use crate::frost::frost_sign_with_nonces;
use crate::frost::frost_verify_share;
use crate::frost::nonce_public_bytes;
use crate::frost::schnorr_verify;
use crate::frost::start_sign_session;
use crate::frost::tap_tweak_hash;
use crate::frost::tweak_frost_key;
use crate::frost::tweak_xonly_frost_key;
use crate::frost::xonly_public_key_bytes;
use crate::frost::FrostKeyXOnly;
use crate::tweak::hmac_sha256;
use crate::tweak::taproot_sighash;
use crate::types::Feerate;
use crate::types::FrostNonce;
use crate::types::FrostSigShare;
use crate::types::PegOut;
use crate::types::PegOutNonceItem;
use crate::types::PegOutSignatureItem;
use crate::types::PendingTransaction;
use crate::types::ProcessPegOutSigError;
use crate::types::RoundConsensus;
use crate::types::RoundConsensusItem;
use crate::types::TransactionData;
use crate::types::TxInput;
use crate::types::TxOutput;
use crate::types::UnsignedTransaction;
use crate::types::WalletConsensusItem;
use crate::types::WalletError;
use crate::wallet::Wallet;

verus! {

/// The round proposals among the ordered consensus items, in order.
pub open spec fn spec_round_items(s: Seq<(u16, WalletConsensusItem)>) -> Seq<(u16, RoundConsensusItem)>
    decreases s.len(),
{
    if s.len() == 0 {
        Seq::empty()
    } else {
        let rest = spec_round_items(s.drop_last());
        match s.last().1 {
            WalletConsensusItem::RoundConsensus(rc) => rest.push((s.last().0, rc)),
            _ => rest,
        }
    }
}

/// The nonce contributions among the ordered consensus items, in order.
pub open spec fn spec_nonce_items(s: Seq<(u16, WalletConsensusItem)>) -> Seq<(u16, PegOutNonceItem)>
    decreases s.len(),
{
    if s.len() == 0 {
        Seq::empty()
    } else {
        let rest = spec_nonce_items(s.drop_last());
        match s.last().1 {
            WalletConsensusItem::PegOutNonce(it) => rest.push((s.last().0, it)),
            _ => rest,
        }
    }
}

/// The signature contributions among the ordered consensus items, in order.
pub open spec fn spec_signature_items(s: Seq<(u16, WalletConsensusItem)>) -> Seq<(u16, PegOutSignatureItem)>
    decreases s.len(),
{
    if s.len() == 0 {
        Seq::empty()
    } else {
        let rest = spec_signature_items(s.drop_last());
        match s.last().1 {
            WalletConsensusItem::PegOutSignature(it) => rest.push((s.last().0, it)),
            _ => rest,
        }
    }
}

/// The nonce items addressed to the transaction stored under `k`, in order.
pub open spec fn spec_nonces_for(items: Seq<(u16, PegOutNonceItem)>, k: Seq<u8>) -> Seq<(u16, PegOutNonceItem)>
    decreases items.len(),
{
    if items.len() == 0 {
        Seq::empty()
    } else {
        let rest = spec_nonces_for(items.drop_last(), k);
        if items.last().1.txid@ == k {
            rest.push(items.last())
        } else {
            rest
        }
    }
}

/// The signature items addressed to the transaction stored under `k`, in order.
pub open spec fn spec_sigs_for(items: Seq<(u16, PegOutSignatureItem)>, k: Seq<u8>) -> Seq<(u16, PegOutSignatureItem)>
    decreases items.len(),
{
    if items.len() == 0 {
        Seq::empty()
    } else {
        let rest = spec_sigs_for(items.drop_last(), k);
        if items.last().1.txid@ == k {
            rest.push(items.last())
        } else {
            rest
        }
    }
}

/// Whether some nonce entry was contributed by this peer.
pub open spec fn spec_nonce_peers_contain(s: Seq<(u16, PegOutNonceItem)>, p: u16) -> bool {
    exists|i: int| 0 <= i < s.len() && (#[trigger] s[i]).0 == p
}

/// A transaction still gathering nonces: some nonces, no signatures yet.
pub open spec fn spec_in_nonce_round(tx: UnsignedTransaction) -> bool {
    tx.nonces@.len() > 0 && tx.signatures@.len() == 0
}

/// Whether some nonce-round transaction lacks a contribution from this peer.
pub open spec fn spec_missing_nonce_peer(
    rows: Seq<(Vec<u8>, UnsignedTransaction)>,
    p: u16,
) -> bool {
    exists|i: int|
        0 <= i < rows.len() && spec_in_nonce_round((#[trigger] rows[i]).1)
            && !spec_nonce_peers_contain(rows[i].1.nonces@, p)
}

/// Whether this peer is in the signing coalition of some transaction that has
/// reached the signature round: it contributed a nonce to a row that already
/// carries signature items.
pub open spec fn spec_sig_round_participant(
    rows: Seq<(Vec<u8>, UnsignedTransaction)>,
    q: u16,
) -> bool {
    exists|i: int|
        0 <= i < rows.len() && (#[trigger] rows[i]).1.signatures@.len() > 0
            && spec_nonce_peers_contain(rows[i].1.nonces@, q)
}

/// Whether this peer contributed a nonce to the transaction.
pub fn nonces_have_peer(nonces: &Vec<(u16, PegOutNonceItem)>, p: u16) -> (r: bool)
    ensures
        r == spec_nonce_peers_contain(nonces@, p),
{
    let mut i: usize = 0;
    while i < nonces.len()
        invariant
            i <= nonces@.len(),
            forall|j: int| 0 <= j < i ==> (#[trigger] nonces@[j]).0 != p,
        decreases nonces@.len() - i,
    {
        if nonces[i].0 == p {
            return true;
        }
        i += 1;
    }
    false
}

/// Whether the peer list contains this peer.
pub fn peers_contain(peers: &Vec<u16>, p: u16) -> (r: bool)
    ensures
        r == peers@.contains(p),
{
    let mut i: usize = 0;
    while i < peers.len()
        invariant
            i <= peers@.len(),
            forall|j: int| 0 <= j < i ==> (#[trigger] peers@[j]) != p,
        decreases peers@.len() - i,
    {
        if peers[i] == p {
            return true;
        }
        i += 1;
    }
    false
}

/// Add a peer to a duplicate-free drop list if it is not yet there.
pub fn push_unique(v: &mut Vec<u16>, p: u16)
    requires
        forall|i: int, j: int| 0 <= i < j < old(v)@.len() ==> old(v)@[i] != old(v)@[j],
    ensures
        forall|i: int, j: int| 0 <= i < j < final(v)@.len() ==> final(v)@[i] != final(v)@[j],
        forall|q: u16| final(v)@.contains(q) <==> (old(v)@.contains(q) || q == p),
{
    if !peers_contain(v, p) {
        v.push(p);
        proof {
            assert forall|q: u16| final(v)@.contains(q) implies (old(v)@.contains(q) || q == p) by {
                let w = choose|w: int| 0 <= w < final(v)@.len() && final(v)@[w] == q;
                if w < old(v)@.len() {
                    assert(old(v)@[w] == q);
                }
            }
            assert forall|q: u16| (old(v)@.contains(q) || q == p) implies final(v)@.contains(q) by {
                if old(v)@.contains(q) {
                    let w = choose|w: int| 0 <= w < old(v)@.len() && old(v)@[w] == q;
                    assert(final(v)@[w] == q);
                } else {
                    assert(final(v)@[final(v)@.len() - 1] == p);
                }
            }
        }
    }
}

/// Whether any nonce-round transaction lacks a contribution from this peer.
pub fn missing_nonce_somewhere(rows: &Vec<(Vec<u8>, UnsignedTransaction)>, p: u16) -> (r: bool)
    ensures
        r == spec_missing_nonce_peer(rows@, p),
{
    let mut i: usize = 0;
    while i < rows.len()
        invariant
            i <= rows@.len(),
            forall|j: int| 0 <= j < i ==> !(spec_in_nonce_round((#[trigger] rows@[j]).1)
                && !spec_nonce_peers_contain(rows@[j].1.nonces@, p)),
        decreases rows@.len() - i,
    {
        if rows[i].1.nonces.len() > 0 && rows[i].1.signatures.len() == 0 {
            if !nonces_have_peer(&rows[i].1.nonces, p) {
                return true;
            }
        }
        i += 1;
    }
    false
}

/// The peers to drop after the nonce round: every consensus peer that failed
/// to contribute a nonce to some transaction that was gathering nonces.
/// Deterministic in its arguments; every peer computes the same set.
pub fn nonce_round_drop_peers(
    rows: &Vec<(Vec<u8>, UnsignedTransaction)>,
    consensus_peers: &Vec<u16>,
) -> (r: Vec<u16>)
    requires
        forall|i: int, j: int| 0 <= i < j < consensus_peers@.len()
            ==> consensus_peers@[i] != consensus_peers@[j],
    ensures
        forall|q: u16| r@.contains(q) <==> (consensus_peers@.contains(q) && spec_missing_nonce_peer(
            rows@,
            q,
        )),
        forall|i: int, j: int| 0 <= i < j < r@.len() ==> r@[i] != r@[j],
{
    let mut drops: Vec<u16> = Vec::new();
    let mut i: usize = 0;
    while i < consensus_peers.len()
        invariant
            i <= consensus_peers@.len(),
            forall|i1: int, j1: int| 0 <= i1 < j1 < drops@.len() ==> drops@[i1] != drops@[j1],
            forall|q: u16| drops@.contains(q) <==> ((exists|j: int|
                0 <= j < i && (#[trigger] consensus_peers@[j]) == q) && spec_missing_nonce_peer(
                rows@,
                q,
            )),
        decreases consensus_peers@.len() - i,
    {
        let p = consensus_peers[i];
        if missing_nonce_somewhere(rows, p) {
            let ghost pre = drops@;
            push_unique(&mut drops, p);
            proof {
                assert forall|q: u16| drops@.contains(q) implies ((exists|j: int|
                    0 <= j < i + 1 && (#[trigger] consensus_peers@[j]) == q)
                    && spec_missing_nonce_peer(rows@, q)) by {
                    if q == p {
                        assert(consensus_peers@[i as int] == q);
                    } else {
                        assert(pre.contains(q));
                    }
                }
            }
        }
        i += 1;
        proof {
            assert forall|q: u16| ((exists|j: int|
                0 <= j < i && (#[trigger] consensus_peers@[j]) == q) && spec_missing_nonce_peer(
                rows@,
                q,
            )) implies drops@.contains(q) by {
                let j = choose|j: int| 0 <= j < i && consensus_peers@[j] == q;
            }
        }
    }
    proof {
        assert forall|q: u16| consensus_peers@.contains(q) && spec_missing_nonce_peer(rows@, q)
            implies drops@.contains(q) by {
            let j = choose|j: int| 0 <= j < consensus_peers@.len() && consensus_peers@[j] == q;
        }
    }
    drops
}

/// Drop-peer determinism for the nonce round: two drop sets computed from the
/// same rows and the same consensus peers contain exactly the same peers,
/// whatever order either list carries them in.
pub proof fn lemma_drop_peers_deterministic(
    rows: Seq<(Vec<u8>, UnsignedTransaction)>,
    consensus_peers: Seq<u16>,
    r1: Seq<u16>,
    r2: Seq<u16>,
)
    requires
        forall|q: u16| r1.contains(q) <==> (consensus_peers.contains(q) && spec_missing_nonce_peer(
            rows,
            q,
        )),
        forall|q: u16| r2.contains(q) <==> (consensus_peers.contains(q) && spec_missing_nonce_peer(
            rows,
            q,
        )),
    ensures
        forall|q: u16| r1.contains(q) <==> r2.contains(q),
{
}

/// The peers to drop for one input of the signature round: every session
/// participant that the consensus set still trusts but whose share for this
/// input is missing or invalid. Exact and deterministic in its arguments.
pub fn drops_for_input(
    participants: &Vec<u16>,
    consensus_peers: &Vec<u16>,
    share_ok: &Vec<bool>,
    drops: &mut Vec<u16>,
)
    requires
        share_ok@.len() == participants@.len(),
        forall|i: int, j: int| 0 <= i < j < old(drops)@.len() ==> old(drops)@[i] != old(drops)@[j],
    ensures
        forall|i: int, j: int| 0 <= i < j < final(drops)@.len()
            ==> final(drops)@[i] != final(drops)@[j],
        forall|q: u16| final(drops)@.contains(q) <==> (old(drops)@.contains(q) || (exists|k: int|
            0 <= k < participants@.len() && (#[trigger] participants@[k]) == q
                && consensus_peers@.contains(q) && !share_ok@[k])),
{
    let mut k: usize = 0;
    while k < participants.len()
        invariant
            k <= participants@.len(),
            share_ok@.len() == participants@.len(),
            forall|i: int, j: int| 0 <= i < j < drops@.len() ==> drops@[i] != drops@[j],
            forall|q: u16| drops@.contains(q) <==> (old(drops)@.contains(q) || (exists|m: int|
                0 <= m < k && (#[trigger] participants@[m]) == q && consensus_peers@.contains(q)
                    && !share_ok@[m])),
        decreases participants@.len() - k,
    {
        let p = participants[k];
        if !share_ok[k] && peers_contain(consensus_peers, p) {
            let ghost pre = drops@;
            push_unique(drops, p);
            proof {
                assert forall|q: u16| drops@.contains(q) implies (old(drops)@.contains(q) || (
                exists|m: int|
                    0 <= m < k + 1 && (#[trigger] participants@[m]) == q
                        && consensus_peers@.contains(q) && !share_ok@[m])) by {
                    if q == p {
                        assert(participants@[k as int] == q);
                    } else {
                        assert(pre.contains(q));
                    }
                }
            }
        }
        k += 1;
        proof {
            assert forall|q: u16| (old(drops)@.contains(q) || (exists|m: int|
                0 <= m < k && (#[trigger] participants@[m]) == q && consensus_peers@.contains(q)
                    && !share_ok@[m])) implies drops@.contains(q) by {
                if !old(drops)@.contains(q) {
                    let m = choose|m: int|
                        0 <= m < k && participants@[m] == q && consensus_peers@.contains(q)
                            && !share_ok@[m];
                }
            }
        }
    }
}

/// The distinct peers that contributed nonces, ascending: the signing
/// coalition a session built from these nonces consists of.
pub fn distinct_nonce_peers(nonces: &Vec<(u16, PegOutNonceItem)>) -> (r: Vec<u16>)
    ensures
        forall|i: int, j: int| 0 <= i < j < r@.len() ==> r@[i] < r@[j],
        forall|q: u16| r@.contains(q) <==> spec_nonce_peers_contain(nonces@, q),
{
    let mut peers: Vec<u16> = Vec::new();
    let mut i: usize = 0;
    while i < nonces.len()
        invariant
            i <= nonces@.len(),
            forall|i1: int, j1: int| 0 <= i1 < j1 < peers@.len() ==> peers@[i1] < peers@[j1],
            forall|q: u16| peers@.contains(q) <==> (exists|j: int|
                0 <= j < i && (#[trigger] nonces@[j]).0 == q),
        decreases nonces@.len() - i,
    {
        let p = nonces[i].0;
        let ghost pre = peers@;
        let present = peers_contain(&peers, p);
        let mut pos: usize = peers.len();
        while pos > 0 && peers[pos - 1] > p
            invariant
                pos <= peers@.len(),
                peers@ == pre,
                forall|m: int| pos <= m < peers@.len() ==> (#[trigger] peers@[m]) > p,
            decreases pos,
        {
            pos -= 1;
        }
        if !present {
            proof {
                if pos > 0 {
                    assert(pre[pos as int - 1] != p);
                    assert(pre[pos as int - 1] < p);
                }
            }
            peers.insert(pos, p);
            proof {
                assert(peers@ =~= pre.subrange(0, pos as int).push(p) + pre.subrange(
                    pos as int,
                    pre.len() as int,
                ));
                assert forall|i1: int, j1: int| 0 <= i1 < j1 < peers@.len() implies peers@[i1]
                    < peers@[j1] by {
                    if pos > 0 {
                        assert(pre[pos as int - 1] < p);
                    }
                }
                assert forall|q: u16| peers@.contains(q) implies ((exists|j: int|
                    0 <= j < i + 1 && (#[trigger] nonces@[j]).0 == q)) by {
                    if q == p {
                        assert(nonces@[i as int].0 == q);
                    } else {
                        let w = choose|w: int| 0 <= w < peers@.len() && peers@[w] == q;
                        assert(pre.contains(q));
                    }
                }
                assert forall|q: u16| pre.contains(q) implies peers@.contains(q) by {
                    let w = choose|w: int| 0 <= w < pre.len() && pre[w] == q;
                    if w < pos as int {
                        assert(peers@[w] == q);
                    } else {
                        assert(peers@[w + 1] == q);
                    }
                }
                assert(peers@[pos as int] == p);
            }
        }
        i += 1;
        proof {
            assert forall|q: u16| ((exists|j: int| 0 <= j < i && (#[trigger] nonces@[j]).0 == q))
                implies peers@.contains(q) by {
                let j = choose|j: int| 0 <= j < i && nonces@[j].0 == q;
                if j < i - 1 {
                    assert(pre.contains(q));
                    if present {
                        assert(peers@ == pre);
                    }
                } else {
                    assert(q == p);
                    if present {
                        assert(pre.contains(p));
                        assert(peers@ == pre);
                    } else {
                        assert(peers@[pos as int] == p);
                    }
                }
            }
        }
    }
    proof {
        assert forall|q: u16| spec_nonce_peers_contain(nonces@, q) implies peers@.contains(q) by {
            let j = choose|j: int| 0 <= j < nonces@.len() && (#[trigger] nonces@[j]).0 == q;
        }
    }
    peers
}

} // verus!

verus! {

impl Wallet {
    /// Store the nonce and signature items this epoch delivered: each item is
    /// appended to the transaction it addresses, in delivery order; items for
    /// unknown transactions are dropped.
    #[verifier::loop_isolation(false)]
    #[verifier::rlimit(60)]
    pub fn save_peg_out_signatures(
        &mut self,
        nonce_items: Vec<(u16, PegOutNonceItem)>,
        sig_items: Vec<(u16, PegOutSignatureItem)>,
    )
        requires
            old(self).db.wf(),
        ensures
            final(self).db.wf(),
            final(self).cfg == old(self).cfg,
            final(self).db.round_consensus == old(self).db.round_consensus,
            final(self).db.block_hashes == old(self).db.block_hashes,
            final(self).db.utxos == old(self).db.utxos,
            final(self).db.pending_transactions == old(self).db.pending_transactions,
            final(self).db.peg_out_signature_ci == old(self).db.peg_out_signature_ci,
            final(self).db.peg_out_nonce_ci == old(self).db.peg_out_nonce_ci,
            final(self).db.unsigned_transactions@.len() == old(self).db.unsigned_transactions@.len(),
            forall|i: int| 0 <= i < old(self).db.unsigned_transactions@.len() ==> {
                &&& (#[trigger] final(self).db.unsigned_transactions@[i]).0
                    == old(self).db.unsigned_transactions@[i].0
                &&& final(self).db.unsigned_transactions@[i].1.psbt
                    == old(self).db.unsigned_transactions@[i].1.psbt
                &&& final(self).db.unsigned_transactions@[i].1.change
                    == old(self).db.unsigned_transactions@[i].1.change
                &&& final(self).db.unsigned_transactions@[i].1.fees
                    == old(self).db.unsigned_transactions@[i].1.fees
                &&& final(self).db.unsigned_transactions@[i].1.nonces@
                    == old(self).db.unsigned_transactions@[i].1.nonces@ + spec_nonces_for(
                    nonce_items@,
                    old(self).db.unsigned_transactions@[i].0@,
                )
                &&& final(self).db.unsigned_transactions@[i].1.signatures@
                    == old(self).db.unsigned_transactions@[i].1.signatures@ + spec_sigs_for(
                    sig_items@,
                    old(self).db.unsigned_transactions@[i].0@,
                )
            },
    {
        let ghost rows0 = self.db.unsigned_transactions@;
        let mut rest = nonce_items;
        let ghost all1 = rest@;
        let mut t: usize = 0;
        let n1 = rest.len();
        proof {
            assert(all1.len() == n1 as int);
            assert forall|i: int| 0 <= i < rows0.len() implies (
            #[trigger] self.db.unsigned_transactions@[i]).1.nonces@ == rows0[i].1.nonces@
                + spec_nonces_for(all1.subrange(0, 0), rows0[i].0@) by {
                assert(all1.subrange(0, 0) =~= Seq::<(u16, PegOutNonceItem)>::empty());
                assert(rows0[i].1.nonces@ + Seq::<(u16, PegOutNonceItem)>::empty() =~= rows0[i].1.nonces@);
            }
        }
        while rest.len() > 0
            invariant
                t + rest@.len() == all1.len(),
                rest@ == all1.subrange(t as int, all1.len() as int),
                self.cfg == old(self).cfg,
                self.db.wf(),
                self.db.round_consensus == old(self).db.round_consensus,
                self.db.block_hashes == old(self).db.block_hashes,
                self.db.utxos == old(self).db.utxos,
                self.db.pending_transactions == old(self).db.pending_transactions,
                self.db.peg_out_signature_ci == old(self).db.peg_out_signature_ci,
                self.db.peg_out_nonce_ci == old(self).db.peg_out_nonce_ci,
                self.db.unsigned_transactions@.len() == rows0.len(),
                forall|i: int| 0 <= i < rows0.len() ==> {
                    &&& (#[trigger] self.db.unsigned_transactions@[i]).0 == rows0[i].0
                    &&& self.db.unsigned_transactions@[i].1.psbt == rows0[i].1.psbt
                    &&& self.db.unsigned_transactions@[i].1.change == rows0[i].1.change
                    &&& self.db.unsigned_transactions@[i].1.fees == rows0[i].1.fees
                    &&& self.db.unsigned_transactions@[i].1.signatures == rows0[i].1.signatures
                    &&& self.db.unsigned_transactions@[i].1.nonces@ == rows0[i].1.nonces@
                        + spec_nonces_for(all1.subrange(0, t as int), rows0[i].0@)
                },
            decreases rest@.len(),
        {
            let pi = rest.remove(0);
            proof {
                assert(pi == all1[t as int]);
            }
            let ghost pre = self.db.unsigned_transactions@;
            match alist_find(&self.db.unsigned_transactions, &pi.1.txid) {
                Some(i) => {
                    let (kk, mut tx) = self.db.unsigned_transactions.remove(i);
                    let ghost tx0 = tx;
                    tx.nonces.push(pi);
                    self.db.unsigned_transactions.insert(i, (kk, tx));
                    proof {
                        assert(self.db.unsigned_transactions@ =~= pre.remove(i as int).insert(
                            i as int,
                            (kk, tx),
                        ));
                        assert forall|j: int| 0 <= j < rows0.len() && j != i as int
                            implies self.db.unsigned_transactions@[j] == pre[j] by {}
                        assert(self.db.unsigned_transactions@[i as int].0 == pre[i as int].0);
                        // the appended item lands on the matching row, nothing else
                        assert forall|j: int| 0 <= j < rows0.len() implies (
                        #[trigger] self.db.unsigned_transactions@[j]).1.nonces@ == rows0[j].1.nonces@
                            + spec_nonces_for(all1.subrange(0, t as int + 1), rows0[j].0@) by {
                            assert(all1.subrange(0, t as int + 1).drop_last() =~= all1.subrange(
                                0,
                                t as int,
                            ));
                            assert(all1.subrange(0, t as int + 1).last() == pi);
                            if j == i as int {
                                assert(pi.1.txid@ == rows0[j].0@);
                                assert(self.db.unsigned_transactions@[j].1.nonces@ =~= rows0[j].1.nonces@
                                    + spec_nonces_for(all1.subrange(0, t as int + 1), rows0[j].0@));
                            } else {
                                assert(rows0[j].0@ != rows0[i as int].0@);
                                assert(pi.1.txid@ != rows0[j].0@);
                            }
                        }
                    }
                },
                None => {
                    proof {
                        assert forall|j: int| 0 <= j < rows0.len() implies (
                        #[trigger] self.db.unsigned_transactions@[j]).1.nonces@ == rows0[j].1.nonces@
                            + spec_nonces_for(all1.subrange(0, t as int + 1), rows0[j].0@) by {
                            assert(all1.subrange(0, t as int + 1).drop_last() =~= all1.subrange(
                                0,
                                t as int,
                            ));
                            assert(all1.subrange(0, t as int + 1).last() == pi);
                            assert(!alist_has_key(pre, pi.1.txid@));
                            assert(pre[j].0@ == rows0[j].0@);
                            assert(pi.1.txid@ != rows0[j].0@);
                        }
                    }
                },
            }
            t += 1;
            proof {
                assert(rest@ =~= all1.subrange(t as int, all1.len() as int));
            }
        }
        proof {
            assert(all1.subrange(0, t as int) =~= all1);
        }
        // signature items, same discipline
        let ghost rows1 = self.db.unsigned_transactions@;
        let mut rest2 = sig_items;
        let ghost all2 = rest2@;
        let n2 = rest2.len();
        proof {
            assert(all2.len() == n2 as int);
        }
        let mut t2: usize = 0;
        proof {
            assert forall|i: int| 0 <= i < rows1.len() implies (
            #[trigger] self.db.unsigned_transactions@[i]).1.signatures@ == rows1[i].1.signatures@
                + spec_sigs_for(all2.subrange(0, 0), rows1[i].0@) by {
                assert(all2.subrange(0, 0) =~= Seq::<(u16, PegOutSignatureItem)>::empty());
                assert(rows1[i].1.signatures@ + Seq::<(u16, PegOutSignatureItem)>::empty()
                    =~= rows1[i].1.signatures@);
            }
        }
        while rest2.len() > 0
            invariant
                t2 + rest2@.len() == all2.len(),
                rest2@ == all2.subrange(t2 as int, all2.len() as int),
                self.cfg == old(self).cfg,
                self.db.wf(),
                self.db.round_consensus == old(self).db.round_consensus,
                self.db.block_hashes == old(self).db.block_hashes,
                self.db.utxos == old(self).db.utxos,
                self.db.pending_transactions == old(self).db.pending_transactions,
                self.db.peg_out_signature_ci == old(self).db.peg_out_signature_ci,
                self.db.peg_out_nonce_ci == old(self).db.peg_out_nonce_ci,
                self.db.unsigned_transactions@.len() == rows1.len(),
                rows1.len() == rows0.len(),
                forall|i: int| 0 <= i < rows1.len() ==> {
                    &&& (#[trigger] self.db.unsigned_transactions@[i]).0 == rows1[i].0
                    &&& self.db.unsigned_transactions@[i].1.psbt == rows1[i].1.psbt
                    &&& self.db.unsigned_transactions@[i].1.change == rows1[i].1.change
                    &&& self.db.unsigned_transactions@[i].1.fees == rows1[i].1.fees
                    &&& self.db.unsigned_transactions@[i].1.nonces == rows1[i].1.nonces
                    &&& self.db.unsigned_transactions@[i].1.signatures@ == rows1[i].1.signatures@
                        + spec_sigs_for(all2.subrange(0, t2 as int), rows1[i].0@)
                },
                forall|i: int| 0 <= i < rows1.len() ==> {
                    &&& (#[trigger] rows1[i]).0 == rows0[i].0
                    &&& rows1[i].1.psbt == rows0[i].1.psbt
                    &&& rows1[i].1.change == rows0[i].1.change
                    &&& rows1[i].1.fees == rows0[i].1.fees
                    &&& rows1[i].1.signatures == rows0[i].1.signatures
                    &&& rows1[i].1.nonces@ == rows0[i].1.nonces@ + spec_nonces_for(
                        all1,
                        rows0[i].0@,
                    )
                },
            decreases rest2@.len(),
        {
            let pi = rest2.remove(0);
            proof {
                assert(pi == all2[t2 as int]);
            }
            let ghost pre = self.db.unsigned_transactions@;
            match alist_find(&self.db.unsigned_transactions, &pi.1.txid) {
                Some(i) => {
                    let (kk, mut tx) = self.db.unsigned_transactions.remove(i);
                    tx.signatures.push(pi);
                    self.db.unsigned_transactions.insert(i, (kk, tx));
                    proof {
                        assert(self.db.unsigned_transactions@ =~= pre.remove(i as int).insert(
                            i as int,
                            (kk, tx),
                        ));
                        assert forall|j: int| 0 <= j < rows1.len() && j != i as int
                            implies self.db.unsigned_transactions@[j] == pre[j] by {}
                        assert forall|j: int| 0 <= j < rows1.len() implies (
                        #[trigger] self.db.unsigned_transactions@[j]).1.signatures@ == rows1[j].1.signatures@
                            + spec_sigs_for(all2.subrange(0, t2 as int + 1), rows1[j].0@) by {
                            assert(all2.subrange(0, t2 as int + 1).drop_last() =~= all2.subrange(
                                0,
                                t2 as int,
                            ));
                            assert(all2.subrange(0, t2 as int + 1).last() == pi);
                            if j == i as int {
                                assert(pi.1.txid@ == rows1[j].0@);
                                assert(self.db.unsigned_transactions@[j].1.signatures@
                                    =~= rows1[j].1.signatures@ + spec_sigs_for(
                                    all2.subrange(0, t2 as int + 1),
                                    rows1[j].0@,
                                ));
                            } else {
                                assert(rows1[j].0@ != rows1[i as int].0@);
                                assert(pi.1.txid@ != rows1[j].0@);
                            }
                        }
                    }
                },
                None => {
                    proof {
                        assert forall|j: int| 0 <= j < rows1.len() implies (
                        #[trigger] self.db.unsigned_transactions@[j]).1.signatures@ == rows1[j].1.signatures@
                            + spec_sigs_for(all2.subrange(0, t2 as int + 1), rows1[j].0@) by {
                            assert(all2.subrange(0, t2 as int + 1).drop_last() =~= all2.subrange(
                                0,
                                t2 as int,
                            ));
                            assert(all2.subrange(0, t2 as int + 1).last() == pi);
                            assert(!alist_has_key(pre, pi.1.txid@));
                            assert(pre[j].0@ == rows1[j].0@);
                            assert(pi.1.txid@ != rows1[j].0@);
                        }
                    }
                },
            }
            t2 += 1;
            proof {
                assert(rest2@ =~= all2.subrange(t2 as int, all2.len() as int));
            }
        }
        proof {
            assert(all2.subrange(0, t2 as int) =~= all2);
        }
    }
}

} // verus!

verus! {

impl Wallet {
    /// Process the epoch's ordered consensus items: store every nonce and
    /// signature contribution with the transaction it addresses, then replace
    /// the round consensus with the medians of the height and fee proposals
    /// and the XOR fold of the randomness contributions. Returns the new
    /// consensus height, which never decreases (a shrinking median would break
    /// the federation and is excluded by the caller).
    #[verifier::loop_isolation(false)]
    #[verifier::rlimit(60)]
    pub fn begin_consensus_epoch(&mut self, consensus_items: Vec<(u16, WalletConsensusItem)>) -> (r:
        u32)
        requires
            old(self).db.wf(),
            spec_round_items(consensus_items@).len() > 0,
            forall|i: int| 0 <= i < spec_round_items(consensus_items@).len()
                ==> (#[trigger] spec_round_items(consensus_items@)[i]).1.randomness@.len() == 32,
            crate::consensus::spec_median_u64(
                spec_round_items(consensus_items@).map_values(|x: (u16, RoundConsensusItem)| x.1.block_height as u64),
            ) >= crate::chain::spec_height(old(self).db),
        ensures
            final(self).db.wf(),
            final(self).cfg == old(self).cfg,
            final(self).db.block_hashes == old(self).db.block_hashes,
            final(self).db.utxos == old(self).db.utxos,
            final(self).db.pending_transactions == old(self).db.pending_transactions,
            final(self).db.peg_out_signature_ci == old(self).db.peg_out_signature_ci,
            final(self).db.peg_out_nonce_ci == old(self).db.peg_out_nonce_ci,
            final(self).db.unsigned_transactions@.len() == old(self).db.unsigned_transactions@.len(),
            forall|i: int| 0 <= i < old(self).db.unsigned_transactions@.len() ==> {
                &&& (#[trigger] final(self).db.unsigned_transactions@[i]).0
                    == old(self).db.unsigned_transactions@[i].0
                &&& final(self).db.unsigned_transactions@[i].1.psbt
                    == old(self).db.unsigned_transactions@[i].1.psbt
                &&& final(self).db.unsigned_transactions@[i].1.nonces@
                    == old(self).db.unsigned_transactions@[i].1.nonces@ + spec_nonces_for(
                    spec_nonce_items(consensus_items@),
                    old(self).db.unsigned_transactions@[i].0@,
                )
                &&& final(self).db.unsigned_transactions@[i].1.signatures@
                    == old(self).db.unsigned_transactions@[i].1.signatures@ + spec_sigs_for(
                    spec_signature_items(consensus_items@),
                    old(self).db.unsigned_transactions@[i].0@,
                )
            },
            final(self).db.round_consensus matches Some(rc) && r == rc.block_height
                && rc.block_height as u64 == crate::consensus::spec_median_u64(
                spec_round_items(consensus_items@).map_values(|x: (u16, RoundConsensusItem)| x.1.block_height as u64),
            ) && rc.fee_rate.sats_per_kvb == crate::consensus::spec_median_u64(
                spec_round_items(consensus_items@).map_values(|x: (u16, RoundConsensusItem)| x.1.fee_rate.sats_per_kvb),
            ) && rc.randomness_beacon@ == crate::consensus::spec_xor_fold(
                spec_round_items(consensus_items@).map_values(|x: (u16, RoundConsensusItem)| x.1.randomness@),
            ),
            // the consensus height never decreases across epochs
            r as int >= crate::chain::spec_height(old(self).db),
    {
        let ghost all = consensus_items@;
        let mut rest = consensus_items;
        let n = rest.len();
        proof {
            assert(all.len() == n as int);
            assert(all.subrange(0, 0) =~= Seq::<(u16, WalletConsensusItem)>::empty());
        }
        let mut rounds: Vec<(u16, RoundConsensusItem)> = Vec::new();
        let mut nonce_items: Vec<(u16, PegOutNonceItem)> = Vec::new();
        let mut sig_items: Vec<(u16, PegOutSignatureItem)> = Vec::new();
        let mut t: usize = 0;
        while rest.len() > 0
            invariant
                t + rest@.len() == all.len(),
                rest@ == all.subrange(t as int, all.len() as int),
                rounds@ == spec_round_items(all.subrange(0, t as int)),
                nonce_items@ == spec_nonce_items(all.subrange(0, t as int)),
                sig_items@ == spec_signature_items(all.subrange(0, t as int)),
            decreases rest@.len(),
        {
            let it = rest.remove(0);
            proof {
                assert(it == all[t as int]);
                assert(all.subrange(0, t as int + 1).drop_last() =~= all.subrange(0, t as int));
                assert(all.subrange(0, t as int + 1).last() == it);
            }
            let (peer, item) = it;
            match item {
                WalletConsensusItem::RoundConsensus(rc) => {
                    rounds.push((peer, rc));
                },
                WalletConsensusItem::PegOutNonce(ni) => {
                    nonce_items.push((peer, ni));
                },
                WalletConsensusItem::PegOutSignature(si) => {
                    sig_items.push((peer, si));
                },
            }
            t += 1;
            proof {
                assert(rest@ =~= all.subrange(t as int, all.len() as int));
            }
        }
        proof {
            assert(all.subrange(0, t as int) =~= all);
        }
        let ghost round_seq = spec_round_items(all);
        self.save_peg_out_signatures(nonce_items, sig_items);

        // fee rate: median of the proposals
        let mut fees: Vec<Feerate> = Vec::new();
        let mut i: usize = 0;
        while i < rounds.len()
            invariant
                i <= rounds@.len(),
                rounds@ == round_seq,
                fees@.len() == i,
                forall|j: int| 0 <= j < i ==> fees@[j] == (#[trigger] rounds@[j]).1.fee_rate,
            decreases rounds@.len() - i,
        {
            fees.push(rounds[i].1.fee_rate);
            i += 1;
        }
        proof {
            assert(fees@.map_values(|f: Feerate| f.sats_per_kvb) =~= round_seq.map_values(
                |x: (u16, RoundConsensusItem)| x.1.fee_rate.sats_per_kvb,
            ));
        }
        let fee_rate = self.process_fee_proposals(fees);

        // block height: median of the proposals, checked monotone by requires
        let mut heights: Vec<u32> = Vec::new();
        let mut i: usize = 0;
        while i < rounds.len()
            invariant
                i <= rounds@.len(),
                rounds@ == round_seq,
                heights@.len() == i,
                forall|j: int| 0 <= j < i ==> heights@[j] == (#[trigger] rounds@[j]).1.block_height,
            decreases rounds@.len() - i,
        {
            heights.push(rounds[i].1.block_height);
            i += 1;
        }
        proof {
            assert(heights@.map_values(|h: u32| h as u64) =~= round_seq.map_values(
                |x: (u16, RoundConsensusItem)| x.1.block_height as u64,
            ));
        }
        let block_height = self.process_block_height_proposals(heights);

        // randomness beacon: XOR fold of the contributions
        let mut contributions: Vec<Vec<u8>> = Vec::new();
        let mut i: usize = 0;
        while i < rounds.len()
            invariant
                i <= rounds@.len(),
                rounds@ == round_seq,
                contributions@.len() == i,
                forall|j: int| 0 <= j < i ==> (#[trigger] contributions@[j])@ == rounds@[j].1.randomness@,
                forall|j: int| 0 <= j < i ==> (#[trigger] contributions@[j])@.len() == 32,
            decreases rounds@.len() - i,
        {
            proof {
                assert(round_seq[i as int].1.randomness@.len() == 32);
            }
            contributions.push(clone_bytes(&rounds[i].1.randomness));
            i += 1;
        }
        let randomness_beacon = self.process_randomness_contributions(&contributions);
        proof {
            assert(crate::consensus::bytes_views(contributions@) =~= round_seq.map_values(
                |x: (u16, RoundConsensusItem)| x.1.randomness@,
            ));
        }

        self.db.round_consensus = Some(RoundConsensus { block_height, fee_rate, randomness_beacon });
        block_height
    }
}

} // verus!

verus! {

/// The id of the transaction the builder constructs for this peg-out over
/// this UTXO set: version 2, lock time 0, the selected outpoints with final
/// sequence numbers, and the `[destination, change]` outputs.
pub open spec fn spec_peg_out_txid(
    desc: Seq<char>,
    out: PegOut,
    utxos: Seq<crate::db::UtxoEntryV>,
    beacon: Seq<u8>,
) -> Seq<u8> {
    let (sel, value, weight) = crate::builder::spec_selection(
        desc,
        out.amount,
        out.recipient.script_pubkey@,
        utxos,
        out.fees.fee_rate,
        beacon,
    ).unwrap();
    let fees = crate::types::spec_fee(out.fees.fee_rate.sats_per_kvb as int, weight);
    crate::tweak::txid_of(
        2,
        0,
        sel.map_values(|e: crate::db::UtxoEntryV| (e.txid, e.vout, 0xFFFFFFFFu32)),
        seq![
            (out.amount, out.recipient.script_pubkey@),
            ((value - fees - out.amount) as u64, crate::tweak::tweaked_script_of(desc, beacon).unwrap()),
        ],
    )
}

impl Wallet {
    /// Validate and queue a peg-out: build the transaction, consume the
    /// selected UTXOs, store the unsigned transaction and stage this peer's
    /// deterministic nonces (one per input, bound to the input index and the
    /// transaction id).
    #[verifier::loop_isolation(false)]
    #[verifier::rlimit(60)]
    pub fn apply_output(&mut self, output: &PegOut) -> (r: Result<u64, WalletError>)
        requires
            old(self).db.wf(),
            old(self).db.round_consensus.is_some(),
        ensures
            final(self).db.wf(),
            final(self).cfg == old(self).cfg,
            final(self).db.round_consensus == old(self).db.round_consensus,
            final(self).db.block_hashes == old(self).db.block_hashes,
            final(self).db.pending_transactions == old(self).db.pending_transactions,
            r.is_err() ==> *final(self) == *old(self),
            r matches Ok(a) ==> a == output.amount,
            !crate::types::spec_address_valid_for_network(output.recipient, old(self).cfg.network)
                ==> r == Err::<u64, WalletError>(WalletError::WrongNetwork(
                old(self).cfg.network,
                output.recipient.network,
            )),
            crate::types::spec_address_valid_for_network(output.recipient, old(self).cfg.network)
                && output.fees.fee_rate.sats_per_kvb
                < old(self).db.round_consensus.unwrap().fee_rate.sats_per_kvb ==> r == Err::<
                u64,
                WalletError,
            >(WalletError::PegOutFeeRate(
                output.fees.fee_rate,
                old(self).db.round_consensus.unwrap().fee_rate,
            )),
            crate::types::spec_address_valid_for_network(output.recipient, old(self).cfg.network)
                && output.fees.fee_rate.sats_per_kvb
                >= old(self).db.round_consensus.unwrap().fee_rate.sats_per_kvb
                && !crate::builder::spec_create_tx_ok(
                old(self).cfg.peg_in_descriptor@,
                output.amount,
                output.recipient.script_pubkey@,
                utxo_views(old(self).db.utxos@),
                output.fees.fee_rate,
                old(self).db.round_consensus.unwrap().randomness_beacon@,
            ) ==> r == Err::<u64, WalletError>(WalletError::NotEnoughSpendableUTXO),
            (r matches Ok(a)) == (crate::types::spec_address_valid_for_network(
                output.recipient,
                old(self).cfg.network,
            ) && output.fees.fee_rate.sats_per_kvb
                >= old(self).db.round_consensus.unwrap().fee_rate.sats_per_kvb
                && crate::builder::spec_create_tx_ok(
                old(self).cfg.peg_in_descriptor@,
                output.amount,
                output.recipient.script_pubkey@,
                utxo_views(old(self).db.utxos@),
                output.fees.fee_rate,
                old(self).db.round_consensus.unwrap().randomness_beacon@,
            )),
            r.is_ok() ==> {
                // the consumed outpoints are gone, nothing was added
                let (sel, value, weight) = crate::builder::spec_selection(
                    old(self).cfg.peg_in_descriptor@,
                    output.amount,
                    output.recipient.script_pubkey@,
                    utxo_views(old(self).db.utxos@),
                    output.fees.fee_rate,
                    old(self).db.round_consensus.unwrap().randomness_beacon@,
                ).unwrap();
                &&& (forall|i: int| 0 <= i < sel.len() ==> !crate::db::utxos_have_key(
                    final(self).db.utxos@,
                    (#[trigger] sel[i]).txid,
                    sel[i].vout,
                ))
                &&& (forall|k: int| 0 <= k < final(self).db.utxos@.len()
                    ==> utxo_views(old(self).db.utxos@).contains(
                        #[trigger] utxo_views(final(self).db.utxos@)[k],
                    ))
                &&& ({
                    let desc = old(self).cfg.peg_in_descriptor@;
                    let beacon = old(self).db.round_consensus.unwrap().randomness_beacon@;
                    let fees = crate::types::spec_fee(output.fees.fee_rate.sats_per_kvb as int, weight);
                    let key = spec_peg_out_txid(desc, *output, utxo_views(old(self).db.utxos@), beacon);
                    let row = final(self).db.unsigned_transactions@.last();
                    let nonce_row = final(self).db.peg_out_nonce_ci@.last();
                    // the built transaction is stored under its real id, with
                    // this peer's nonce proposal staged beside it
                    &&& final(self).db.unsigned_transactions@.len() > 0
                    &&& final(self).db.peg_out_nonce_ci@.len() > 0
                    &&& row.0@ == key
                    &&& crate::db::alist_has_key(final(self).db.unsigned_transactions@, key)
                    &&& row.1.psbt.change_tweak@ == beacon
                    &&& row.1.nonces@.len() == 0
                    &&& row.1.signatures@.len() == 0
                    &&& row.1.change == value - fees - output.amount
                    &&& row.1.fees == (crate::types::PegOutFees {
                        fee_rate: output.fees.fee_rate,
                        total_weight: weight as u64,
                    })
                    &&& row.1.psbt.unsigned_tx.version == 2
                    &&& row.1.psbt.unsigned_tx.lock_time == 0
                    &&& row.1.psbt.unsigned_tx.input@.len() == sel.len()
                    &&& row.1.psbt.inputs@.len() == sel.len()
                    &&& row.1.psbt.unsigned_tx.output@.len() == 2
                    &&& row.1.psbt.unsigned_tx.output@[0].value == output.amount
                    &&& row.1.psbt.unsigned_tx.output@[0].script_pubkey@
                        == output.recipient.script_pubkey@
                    &&& row.1.psbt.unsigned_tx.output@[1].value == row.1.change
                    &&& row.1.psbt.unsigned_tx.output@[1].script_pubkey@
                        == crate::tweak::tweaked_script_of(desc, beacon).unwrap()
                    &&& (forall|i: int| 0 <= i < sel.len() ==> {
                        &&& (#[trigger] row.1.psbt.unsigned_tx.input@[i]).previous_output.txid@
                            == sel[i].txid
                        &&& row.1.psbt.unsigned_tx.input@[i].previous_output.vout == sel[i].vout
                        &&& row.1.psbt.inputs@[i].tweak@ == sel[i].tweak
                        &&& row.1.psbt.inputs@[i].witness_utxo.value == sel[i].amount
                    })
                    &&& nonce_row.0@ == key
                    &&& nonce_row.1@.len() == sel.len()
                })
            },
    {
        let amount = match self.validate_output(output) {
            Ok(a) => a,
            Err(e) => {
                return Err(e);
            },
        };
        let tx = match self.create_peg_out_tx(output) {
            Some(tx) => tx,
            None => {
                return Err(WalletError::NotEnoughSpendableUTXO);
            },
        };
        let txid = crate::tweak::compute_txid(&tx.psbt.unsigned_tx);

        // consume the selected UTXOs
        let ghost sel = crate::builder::spec_selection(
            old(self).cfg.peg_in_descriptor@,
            output.amount,
            output.recipient.script_pubkey@,
            utxo_views(old(self).db.utxos@),
            output.fees.fee_rate,
            old(self).db.round_consensus.unwrap().randomness_beacon@,
        ).unwrap().0;
        let n_inputs = tx.psbt.unsigned_tx.input.len();
        proof {
            assert(n_inputs as int == sel.len());
        }
        let mut i: usize = 0;
        while i < n_inputs
            invariant
                i <= n_inputs,
                n_inputs as int == sel.len(),
                n_inputs == tx.psbt.unsigned_tx.input@.len(),
                self.cfg == old(self).cfg,
                self.db.wf(),
                self.db.round_consensus == old(self).db.round_consensus,
                self.db.block_hashes == old(self).db.block_hashes,
                self.db.pending_transactions == old(self).db.pending_transactions,
                self.db.unsigned_transactions == old(self).db.unsigned_transactions,
                self.db.peg_out_signature_ci == old(self).db.peg_out_signature_ci,
                self.db.peg_out_nonce_ci == old(self).db.peg_out_nonce_ci,
                forall|m: int| 0 <= m < i ==> !crate::db::utxos_have_key(
                    self.db.utxos@,
                    (#[trigger] sel[m]).txid,
                    sel[m].vout,
                ),
                forall|k: int| 0 <= k < self.db.utxos@.len()
                    ==> utxo_views(old(self).db.utxos@).contains(
                        #[trigger] utxo_views(self.db.utxos@)[k],
                    ),
                forall|m: int| 0 <= m < sel.len()
                    ==> (#[trigger] tx.psbt.unsigned_tx.input@[m]).previous_output.txid@
                        == sel[m].txid && tx.psbt.unsigned_tx.input@[m].previous_output.vout
                        == sel[m].vout,
            decreases n_inputs - i,
        {
            let ghost pre_views = utxo_views(self.db.utxos@);
            let ghost pre_exec = self.db.utxos@;
            let ghost mut removed: Option<int> = None;
            match utxos_find(
                &self.db.utxos,
                &tx.psbt.unsigned_tx.input[i].previous_output.txid,
                tx.psbt.unsigned_tx.input[i].previous_output.vout,
            ) {
                Some(w) => {
                    self.db.utxos.remove(w);
                    proof {
                        removed = Some(w as int);
                        assert(utxo_views(self.db.utxos@) =~= pre_views.remove(w as int));
                        assert forall|k: int| 0 <= k < self.db.utxos@.len()
                            implies pre_views.contains(#[trigger] utxo_views(self.db.utxos@)[k]) by {
                            if k < w {
                                assert(utxo_views(self.db.utxos@)[k] == pre_views[k]);
                            } else {
                                assert(utxo_views(self.db.utxos@)[k] == pre_views[k + 1]);
                            }
                        }
                    }
                },
                None => {},
            }
            proof {
                assert forall|m: int| 0 <= m < i + 1 implies !crate::db::utxos_have_key(
                    self.db.utxos@,
                    (#[trigger] sel[m]).txid,
                    sel[m].vout,
                ) by {
                    if crate::db::utxos_have_key(self.db.utxos@, sel[m].txid, sel[m].vout) {
                        let w2 = choose|w2: int|
                            0 <= w2 < self.db.utxos@.len() && (#[trigger] self.db.utxos@[w2]).0.txid@
                                == sel[m].txid && self.db.utxos@[w2].0.vout == sel[m].vout;
                        match removed {
                            Some(w) => {
                                let w3 = if w2 < w { w2 } else { w2 + 1 };
                                assert(self.db.utxos@ =~= pre_exec.remove(w));
                                assert(self.db.utxos@[w2] == pre_exec[w3]);
                                if m < i {
                                    assert(crate::db::utxos_have_key(pre_exec, sel[m].txid, sel[m].vout));
                                } else {
                                    assert(pre_exec[w].0.txid@ == sel[m].txid);
                                    assert(pre_exec[w].0.vout == sel[m].vout);
                                    assert(w3 != w);
                                    assert(false);
                                }
                            },
                            None => {
                                if m < i {
                                    assert(crate::db::utxos_have_key(pre_exec, sel[m].txid, sel[m].vout));
                                } else {
                                    assert(!crate::db::utxos_have_key(pre_exec, sel[m].txid, sel[m].vout));
                                }
                            },
                        }
                    }
                }
            }
            i += 1;
        }

        // stage this peer's nonces, one per input, bound to (index, txid)
        let mut nonces: Vec<FrostNonce> = Vec::new();
        let mut i: usize = 0;
        while i < n_inputs
            invariant
                i <= n_inputs,
                nonces@.len() == i,
            decreases n_inputs - i,
        {
            // each nonce is bound to (input index, transaction id) through the
            // session id the derivation is seeded with
            let sid = make_sid(i as u32, &txid);
            let kp = frost_gen_nonce(&self.cfg.frost_key, &self.cfg.peg_in_key, &sid);
            nonces.push(FrostNonce(nonce_public_bytes(&kp)));
            i += 1;
        }

        proof {
            // the computed id is the id of the transaction the builder pinned
            let desc = old(self).cfg.peg_in_descriptor@;
            let beacon = old(self).db.round_consensus.unwrap().randomness_beacon@;
            assert(crate::tweak::tx_inputs_view(tx.psbt.unsigned_tx) =~= sel.map_values(
                |e: crate::db::UtxoEntryV| (e.txid, e.vout, 0xFFFFFFFFu32),
            ));
            let fees = crate::types::spec_fee(output.fees.fee_rate.sats_per_kvb as int,
                crate::builder::spec_selection(
                    desc,
                    output.amount,
                    output.recipient.script_pubkey@,
                    utxo_views(old(self).db.utxos@),
                    output.fees.fee_rate,
                    beacon,
                ).unwrap().2);
            assert(crate::tweak::tx_outputs_view(tx.psbt.unsigned_tx) =~= seq![
                (output.amount, output.recipient.script_pubkey@),
                ((
                    crate::builder::spec_selection(
                        desc,
                        output.amount,
                        output.recipient.script_pubkey@,
                        utxo_views(old(self).db.utxos@),
                        output.fees.fee_rate,
                        beacon,
                    ).unwrap().1 - fees - output.amount
                ) as u64, crate::tweak::tweaked_script_of(desc, beacon).unwrap()),
            ]);
            assert(txid@ == spec_peg_out_txid(desc, *output, utxo_views(old(self).db.utxos@), beacon));
        }
        // store the unsigned transaction and the staged nonces
        alist_remove(&mut self.db.unsigned_transactions, &txid);
        alist_remove(&mut self.db.peg_out_nonce_ci, &txid);
        let txid2 = clone_bytes(&txid);
        self.db.unsigned_transactions.push((txid, tx));
        self.db.peg_out_nonce_ci.push((txid2, nonces));
        proof {
            assert(self.db.unsigned_transactions@.len() > 0);
            assert(self.db.peg_out_nonce_ci@.len() > 0);
            assert(self.db.unsigned_transactions@.last().0@ == txid@);
            assert(crate::db::alist_has_key(self.db.unsigned_transactions@, txid@));
        }
        Ok(amount)
    }
}

} // verus!

verus! {

/// The session id a nonce for one input of one transaction is derived under:
/// the input index in big-endian bytes, then the transaction id. Equal inputs
/// of equal transactions give equal ids; distinct ones differ, which is what
/// keeps nonces from being reused across inputs or transactions.
pub open spec fn spec_sid(index: u32, txid: Seq<u8>) -> Seq<u8> {
    seq![
        (index >> 24u32) as u8,
        ((index >> 16u32) & 0xffu32) as u8,
        ((index >> 8u32) & 0xffu32) as u8,
        (index & 0xffu32) as u8,
    ] + txid
}

/// Build the session id for one input.
#[verifier::loop_isolation(false)]
fn make_sid(index: u32, txid: &Vec<u8>) -> (r: Vec<u8>)
    ensures
        r@ == spec_sid(index, txid@),
{
    let mut sid: Vec<u8> = Vec::new();
    proof {
        assert(index >> 24u32 < 256) by (bit_vector);
        assert((index >> 16u32) & 0xffu32 < 256) by (bit_vector);
        assert((index >> 8u32) & 0xffu32 < 256) by (bit_vector);
        assert(index & 0xffu32 < 256) by (bit_vector);
    }
    sid.push((index >> 24) as u8);
    sid.push(((index >> 16) & 0xff) as u8);
    sid.push(((index >> 8) & 0xff) as u8);
    sid.push((index & 0xff) as u8);
    let ghost prefix = sid@;
    let mut j: usize = 0;
    while j < txid.len()
        invariant
            j <= txid@.len(),
            sid@ == prefix + txid@.subrange(0, j as int),
        decreases txid@.len() - j,
    {
        sid.push(txid[j]);
        j += 1;
        proof {
            assert(sid@ =~= prefix + txid@.subrange(0, j as int));
        }
    }
    proof {
        assert(txid@.subrange(0, txid@.len() as int) =~= txid@);
        assert(sid@ =~= spec_sid(index, txid@));
    }
    sid
}

/// The first signature share this peer attached for the given input, if any.
fn find_share(signatures: &Vec<(u16, PegOutSignatureItem)>, peer: u16, idx: usize) -> (r: Option<
    Vec<u8>,
>)
{
    let mut i: usize = 0;
    while i < signatures.len()
        invariant
            i <= signatures@.len(),
        decreases signatures@.len() - i,
    {
        if signatures[i].0 == peer {
            if idx < signatures[i].1.signatures.len() {
                return Some(clone_bytes(&signatures[i].1.signatures[idx].0));
            }
            return None;
        }
        i += 1;
    }
    None
}

/// Ghost view of one nonce contribution: the peer, the addressed transaction
/// id and the nonce bytes, insensitive to copying.
pub struct NonceEntryV {
    pub peer: u16,
    pub txid: Seq<u8>,
    pub nonces: Seq<Seq<u8>>,
}

/// The view of one nonce contribution.
pub open spec fn nonce_entry_view(e: (u16, PegOutNonceItem)) -> NonceEntryV {
    NonceEntryV {
        peer: e.0,
        txid: e.1.txid@,
        nonces: e.1.nonces@.map_values(|n: FrostNonce| n.0@),
    }
}

/// The views of a nonce contribution list.
pub open spec fn nonce_entry_views(s: Seq<(u16, PegOutNonceItem)>) -> Seq<NonceEntryV> {
    s.map_values(|e: (u16, PegOutNonceItem)| nonce_entry_view(e))
}

/// Insert a contribution into an ascending, one-entry-per-peer list: an
/// existing entry of the same peer is replaced (later deliveries win),
/// otherwise the entry goes to its sorted position.
pub open spec fn spec_upsert_nonce(acc: Seq<NonceEntryV>, e: NonceEntryV) -> Seq<NonceEntryV>
    decreases acc.len(),
{
    if acc.len() == 0 {
        seq![e]
    } else if acc.last().peer == e.peer {
        acc.drop_last().push(e)
    } else if acc.last().peer < e.peer {
        acc.push(e)
    } else {
        spec_upsert_nonce(acc.drop_last(), e).push(acc.last())
    }
}

/// The canonical nonce set a signing session is built from: contributions of
/// dropped peers discarded, one entry per peer (the last delivered), ascending
/// by peer — the order the underlying map imposes on every peer alike.
pub open spec fn spec_canonical_nonces(items: Seq<NonceEntryV>, drops: Seq<u16>) -> Seq<NonceEntryV>
    decreases items.len(),
{
    if items.len() == 0 {
        Seq::empty()
    } else {
        let prev = spec_canonical_nonces(items.drop_last(), drops);
        if drops.contains(items.last().peer) {
            prev
        } else {
            spec_upsert_nonce(prev, items.last())
        }
    }
}

/// Ascending and one entry per peer.
pub open spec fn spec_nonce_sorted(s: Seq<NonceEntryV>) -> bool {
    forall|i: int, j: int| 0 <= i < j < s.len() ==> (#[trigger] s[i]).peer < (#[trigger] s[j]).peer
}

/// On a sorted list, `spec_upsert_nonce` replaces the peer's entry in place.
proof fn lemma_upsert_nonce_replace(acc: Seq<NonceEntryV>, e: NonceEntryV, w: int)
    requires
        spec_nonce_sorted(acc),
        0 <= w < acc.len(),
        acc[w].peer == e.peer,
    ensures
        spec_upsert_nonce(acc, e) == acc.update(w, e),
    decreases acc.len(),
{
    if w == acc.len() - 1 {
        assert(spec_upsert_nonce(acc, e) =~= acc.update(w, e));
    } else {
        assert(acc[w].peer < acc.last().peer);
        lemma_upsert_nonce_replace(acc.drop_last(), e, w);
        assert(acc.drop_last() =~= acc.subrange(0, acc.len() - 1));
        assert(spec_upsert_nonce(acc, e) =~= acc.update(w, e));
    }
}

/// On a sorted list without the peer, `spec_upsert_nonce` is insertion at the
/// scanned position.
proof fn lemma_upsert_nonce_insert(acc: Seq<NonceEntryV>, e: NonceEntryV, pos: int)
    requires
        spec_nonce_sorted(acc),
        0 <= pos <= acc.len(),
        forall|m: int| pos <= m < acc.len() ==> (#[trigger] acc[m]).peer > e.peer,
        pos > 0 ==> acc[pos - 1].peer < e.peer,
    ensures
        spec_upsert_nonce(acc, e) == acc.subrange(0, pos).push(e) + acc.subrange(
            pos,
            acc.len() as int,
        ),
    decreases acc.len(),
{
    if pos == acc.len() {
        assert(spec_upsert_nonce(acc, e) =~= acc.push(e));
        assert(acc.subrange(0, pos) =~= acc);
        assert(acc.push(e) =~= acc.subrange(0, pos).push(e) + acc.subrange(pos, acc.len() as int));
    } else {
        assert(acc[acc.len() - 1].peer > e.peer);
        lemma_upsert_nonce_insert(acc.drop_last(), e, pos);
        assert(acc.drop_last() =~= acc.subrange(0, acc.len() - 1));
        assert(spec_upsert_nonce(acc, e) =~= acc.subrange(0, pos).push(e) + acc.subrange(
            pos,
            acc.len() as int,
        ));
    }
}

/// A copy of a nonce contribution list (same views).
fn clone_nonce_items(v: &Vec<(u16, PegOutNonceItem)>) -> (r: Vec<(u16, PegOutNonceItem)>)
    ensures
        nonce_entry_views(r@) == nonce_entry_views(v@),
        r@.len() == v@.len(),
{
    let mut c: Vec<(u16, PegOutNonceItem)> = Vec::new();
    let mut i: usize = 0;
    while i < v.len()
        invariant
            i <= v@.len(),
            c@.len() == i,
            forall|j: int| 0 <= j < i ==> nonce_entry_view(#[trigger] c@[j]) == nonce_entry_view(
                v@[j],
            ),
        decreases v@.len() - i,
    {
        let item = PegOutNonceItem {
            txid: clone_bytes(&v[i].1.txid),
            nonces: crate::wallet::clone_nonces(&v[i].1.nonces),
        };
        c.push((v[i].0, item));
        proof {
            assert(crate::wallet::nonce_views(c@[i as int].1.nonces@) =~= crate::wallet::nonce_views(
                v@[i as int].1.nonces@,
            ));
            assert(nonce_entry_view(c@[i as int]) =~= nonce_entry_view(v@[i as int]));
        }
        i += 1;
    }
    proof {
        assert(nonce_entry_views(c@) =~= nonce_entry_views(v@));
    }
    c
}

/// Filter and order a nonce contribution list into the canonical set.
#[verifier::loop_isolation(false)]
fn canonical_nonces(items: Vec<(u16, PegOutNonceItem)>, drop_peers: &Vec<u16>) -> (r: Vec<(
    u16,
    PegOutNonceItem,
)>)
    ensures
        nonce_entry_views(r@) == spec_canonical_nonces(nonce_entry_views(items@), drop_peers@),
{
    let ghost all = nonce_entry_views(items@);
    let mut rest = items;
    let n = rest.len();
    let mut out: Vec<(u16, PegOutNonceItem)> = Vec::new();
    let mut t: usize = 0;
    proof {
        assert(all.len() == n as int);
        assert(all.subrange(0, 0) =~= Seq::<NonceEntryV>::empty());
        assert(nonce_entry_views(out@) =~= Seq::<NonceEntryV>::empty());
    }
    while rest.len() > 0
        invariant
            t + rest@.len() == all.len(),
            nonce_entry_views(rest@) == all.subrange(t as int, all.len() as int),
            nonce_entry_views(out@) == spec_canonical_nonces(all.subrange(0, t as int), drop_peers@),
            spec_nonce_sorted(nonce_entry_views(out@)),
        decreases rest@.len(),
    {
        let ghost restv = nonce_entry_views(rest@);
        let pi = rest.remove(0);
        proof {
            assert(nonce_entry_views(rest@) =~= restv.subrange(1, restv.len() as int));
            assert(nonce_entry_views(rest@) =~= all.subrange(t as int + 1, all.len() as int));
            assert(restv[0] == all[t as int]);
            assert(nonce_entry_view(pi) == all[t as int]);
            assert(all.subrange(0, t as int + 1).drop_last() =~= all.subrange(0, t as int));
            assert(all.subrange(0, t as int + 1).last() == all[t as int]);
        }
        if !peers_contain(drop_peers, pi.0) {
            let ghost outv = nonce_entry_views(out@);
            let ghost e = nonce_entry_view(pi);
            // find an existing entry of this peer (later deliveries win)
            let mut found: Option<usize> = None;
            let mut q: usize = 0;
            while q < out.len()
                invariant
                    q <= out@.len(),
                    out@.len() == outv.len(),
                    match found {
                        Some(w) => w < out@.len() && out@[w as int].0 == pi.0,
                        None => forall|m: int| 0 <= m < q ==> (#[trigger] out@[m]).0 != pi.0,
                    },
                decreases out@.len() - q,
            {
                if out[q].0 == pi.0 && found.is_none() {
                    found = Some(q);
                }
                q += 1;
            }
            match found {
                Some(w) => {
                    out.set(w, pi);
                    proof {
                        assert(outv[w as int].peer == e.peer);
                        lemma_upsert_nonce_replace(outv, e, w as int);
                        assert(nonce_entry_views(out@) =~= outv.update(w as int, e));
                        assert(nonce_entry_views(out@) == spec_upsert_nonce(outv, e));
                    }
                },
                None => {
                    // insert at the sorted position
                    let mut pos: usize = out.len();
                    while pos > 0 && out[pos - 1].0 > pi.0
                        invariant
                            pos <= out@.len(),
                            forall|m: int| pos <= m < out@.len() ==> (#[trigger] out@[m]).0 > pi.0,
                        decreases pos,
                    {
                        pos -= 1;
                    }
                    proof {
                        assert forall|m: int| pos as int <= m < outv.len() implies (
                        #[trigger] outv[m]).peer > e.peer by {
                            assert(outv[m] == nonce_entry_view(out@[m]));
                        }
                        if pos > 0 {
                            assert(out@[pos as int - 1].0 != pi.0);
                            assert(outv[pos as int - 1].peer < e.peer);
                        }
                        lemma_upsert_nonce_insert(outv, e, pos as int);
                    }
                    out.insert(pos, pi);
                    proof {
                        assert(nonce_entry_views(out@) =~= outv.subrange(0, pos as int).push(e)
                            + outv.subrange(pos as int, outv.len() as int));
                        assert(nonce_entry_views(out@) == spec_upsert_nonce(outv, e));
                    }
                },
            }
            proof {
                assert forall|i1: int, j1: int|
                    0 <= i1 < j1 < nonce_entry_views(out@).len() implies (#[trigger] nonce_entry_views(
                    out@,
                )[i1]).peer < (#[trigger] nonce_entry_views(out@)[j1]).peer by {
                    assert(nonce_entry_views(out@)[i1] == nonce_entry_view(out@[i1]));
                    assert(nonce_entry_views(out@)[j1] == nonce_entry_view(out@[j1]));
                }
            }
        }
        t += 1;
    }
    proof {
        assert(all.subrange(0, t as int) =~= all);
    }
    out
}

/// The spent outputs a stored transaction's sighashes commit to: each input's
/// witness output, in input order.
pub open spec fn psbt_prevout_views(inputs: Seq<crate::types::PsbtInput>) -> Seq<(u64, Seq<u8>)> {
    inputs.map_values(|pi: crate::types::PsbtInput| (pi.witness_utxo.value, pi.witness_utxo.script_pubkey@))
}

/// The message one input of a stored transaction is signed under: the BIP341
/// key-spend sighash over the transaction and its recorded witness outputs.
pub open spec fn spec_row_sighash(tx: UnsignedTransaction, input_index: int) -> Seq<u8> {
    crate::tweak::sighash_of(
        tx.psbt.unsigned_tx.version as int,
        tx.psbt.unsigned_tx.lock_time as int,
        crate::tweak::tx_inputs_view(tx.psbt.unsigned_tx),
        crate::tweak::tx_outputs_view(tx.psbt.unsigned_tx),
        psbt_prevout_views(tx.psbt.inputs@),
        input_index,
    )
}

impl Wallet {
    /// The data a signing session for one input is built from: the BIP341
    /// tweaked x-only federation key for the input's tweak, the taproot
    /// key-spend sighash, and the peers' nonces for this input. `None` when
    /// the transaction is malformed (a short nonce list) or a derivation
    /// fails.
    fn sign_session_params(&self, tx: &UnsignedTransaction, input_index: usize) -> (r: Option<(
        FrostKeyXOnly,
        Vec<u8>,
        Vec<(u16, Vec<u8>)>,
    )>)
        requires
            input_index < tx.psbt.inputs@.len(),
            crate::tweak::tx_prevouts_wf(tx.psbt.unsigned_tx),
        ensures
            r.is_some() ==> r.unwrap().1@.len() == 32,
            r.is_some() ==> r.unwrap().1@ == spec_row_sighash(*tx, input_index as int),
            r.is_some() ==> (forall|j: int| 0 <= j < tx.nonces@.len()
                ==> (#[trigger] tx.nonces@[j]).1.nonces@.len() > input_index),
            // the session is built over exactly each contributor's nonce for
            // this input, in the stored order
            r.is_some() ==> r.unwrap().2@.len() == tx.nonces@.len(),
            r.is_some() ==> (forall|j: int| 0 <= j < tx.nonces@.len()
                ==> (#[trigger] r.unwrap().2@[j]).0 == tx.nonces@[j].0 && r.unwrap().2@[j].1@
                    == tx.nonces@[j].1.nonces@[input_index as int].0@),
    {
        let tweak_pk = &tx.psbt.inputs[input_index].tweak;
        let pub_bytes = frost_public_key_bytes(&self.cfg.frost_key);
        let t = hmac_sha256(&pub_bytes, tweak_pk);
        let tweaked = match tweak_frost_key(&self.cfg.frost_key, &t) {
            Some(k) => k,
            None => {
                return None;
            },
        };
        let xonly = frost_key_into_xonly(&tweaked);

        // the message: taproot key-spend sighash over all witness outputs
        let mut prevouts: Vec<TxOutput> = Vec::new();
        let mut i: usize = 0;
        while i < tx.psbt.inputs.len()
            invariant
                i <= tx.psbt.inputs@.len(),
                prevouts@.len() == i,
                forall|j: int| 0 <= j < i ==> (#[trigger] prevouts@[j]).value
                    == tx.psbt.inputs@[j].witness_utxo.value && prevouts@[j].script_pubkey@
                    == tx.psbt.inputs@[j].witness_utxo.script_pubkey@,
            decreases tx.psbt.inputs@.len() - i,
        {
            prevouts.push(TxOutput {
                value: tx.psbt.inputs[i].witness_utxo.value,
                script_pubkey: clone_bytes(&tx.psbt.inputs[i].witness_utxo.script_pubkey),
            });
            i += 1;
        }
        proof {
            assert(crate::tweak::outputs_view(prevouts@) =~= psbt_prevout_views(tx.psbt.inputs@));
        }
        let message = match taproot_sighash(&tx.psbt.unsigned_tx, &prevouts, input_index) {
            Some(m) => m,
            None => {
                return None;
            },
        };

        // the BIP341 output key: tweak the x-only key with its taproot hash
        let xb = xonly_public_key_bytes(&xonly);
        let th = match tap_tweak_hash(&xb) {
            Some(h) => h,
            None => {
                return None;
            },
        };
        let on_chain_key = match tweak_xonly_frost_key(&xonly, &th) {
            Some(k) => k,
            None => {
                return None;
            },
        };

        // each peer's nonce for this input
        let mut nonces: Vec<(u16, Vec<u8>)> = Vec::new();
        let mut i: usize = 0;
        while i < tx.nonces.len()
            invariant
                i <= tx.nonces@.len(),
                nonces@.len() == i,
                forall|j: int| 0 <= j < i ==> (#[trigger] tx.nonces@[j]).1.nonces@.len()
                    > input_index,
                forall|j: int| 0 <= j < i ==> (#[trigger] nonces@[j]).0 == tx.nonces@[j].0
                    && nonces@[j].1@ == tx.nonces@[j].1.nonces@[input_index as int].0@,
            decreases tx.nonces@.len() - i,
        {
            if input_index >= tx.nonces[i].1.nonces.len() {
                return None;
            }
            nonces.push((tx.nonces[i].0, clone_bytes(&tx.nonces[i].1.nonces[input_index].0)));
            i += 1;
        }
        Some((on_chain_key, message, nonces))
    }

    /// Start the FROST signing session for one input: the session, the
    /// on-chain key it signs under, the 32-byte sighash message, and the
    /// nonces the session was built over — exactly each contributor's nonce
    /// for this input, in the stored order.
    pub fn create_sign_session(&self, tx: &UnsignedTransaction, input_index: usize) -> (r: Option<(
        schnorr_fun::frost::SignSession,
        FrostKeyXOnly,
        Vec<u8>,
        Vec<(u16, Vec<u8>)>,
    )>)
        requires
            input_index < tx.psbt.inputs@.len(),
            crate::tweak::tx_prevouts_wf(tx.psbt.unsigned_tx),
        ensures
            r.is_some() ==> r.unwrap().2@.len() == 32,
            r.is_some() ==> r.unwrap().2@ == spec_row_sighash(*tx, input_index as int),
            r.is_some() ==> (forall|j: int| 0 <= j < tx.nonces@.len()
                ==> (#[trigger] tx.nonces@[j]).1.nonces@.len() > input_index),
            r.is_some() ==> r.unwrap().3@.len() == tx.nonces@.len(),
            r.is_some() ==> (forall|j: int| 0 <= j < tx.nonces@.len()
                ==> (#[trigger] r.unwrap().3@[j]).0 == tx.nonces@[j].0 && r.unwrap().3@[j].1@
                    == tx.nonces@[j].1.nonces@[input_index as int].0@),
    {
        let (key, message, nonces) = match self.sign_session_params(tx, input_index) {
            Some(p) => p,
            None => {
                return None;
            },
        };
        let session = match start_sign_session(&key, &nonces, &message) {
            Some(s) => s,
            None => {
                return None;
            },
        };
        Some((session, key, message, nonces))
    }
}

} // verus!

verus! {

/// Exactly the broadcastable form of a stored transaction: the same version,
/// lock time, outputs, outpoints and sequence numbers, the stored change tweak
/// and change amount, and one 64-byte witness on every input.
pub open spec fn spec_finalized_from(p: PendingTransaction, tx: UnsignedTransaction) -> bool {
    &&& p.tweak == tx.psbt.change_tweak
    &&& p.change == tx.change
    &&& p.tx.version == tx.psbt.unsigned_tx.version
    &&& p.tx.lock_time == tx.psbt.unsigned_tx.lock_time
    &&& p.tx.output == tx.psbt.unsigned_tx.output
    &&& p.tx.input@.len() == tx.psbt.unsigned_tx.input@.len()
    &&& forall|w: int| 0 <= w < p.tx.input@.len() ==> {
        &&& (#[trigger] p.tx.input@[w]).previous_output
            == tx.psbt.unsigned_tx.input@[w].previous_output
        &&& p.tx.input@[w].sequence == tx.psbt.unsigned_tx.input@[w].sequence
        &&& p.tx.input@[w].witness@.len() == 1
        &&& p.tx.input@[w].witness@[0]@.len() == 64
    }
}

/// The row is present, unchanged, in the table.
pub open spec fn spec_row_unchanged_in(
    row: (Vec<u8>, UnsignedTransaction),
    unsigned: Seq<(Vec<u8>, UnsignedTransaction)>,
) -> bool {
    exists|i: int|
        0 <= i < unsigned.len() && (#[trigger] unsigned[i]).0@ == row.0@ && unsigned[i].1 == row.1
}

/// The row is present with its nonce set replaced by the canonical
/// drop-filtered set, everything else unchanged.
pub open spec fn spec_row_advanced_in(
    row: (Vec<u8>, UnsignedTransaction),
    drops: Seq<u16>,
    unsigned: Seq<(Vec<u8>, UnsignedTransaction)>,
) -> bool {
    exists|i: int|
        0 <= i < unsigned.len() && (#[trigger] unsigned[i]).0@ == row.0@
            && unsigned[i].1.psbt == row.1.psbt && unsigned[i].1.signatures == row.1.signatures
            && unsigned[i].1.change == row.1.change && unsigned[i].1.fees == row.1.fees
            && nonce_entry_views(unsigned[i].1.nonces@) == spec_canonical_nonces(
            nonce_entry_views(row.1.nonces@),
            drops,
        )
}

/// What one epoch owes each stored transaction. A gathering row whose
/// canonical drop-filtered nonce set reaches the threshold is advanced: the
/// filtered set is stored, the nonce proposal withdrawn and a signature
/// proposal staged; below the threshold everything stays as it was. A
/// signature-round row either stays unchanged or leaves the table against a
/// pending row under its key that carries its exact broadcastable form. Every
/// other row stays unchanged.
pub open spec fn spec_row_outcome(
    row: (Vec<u8>, UnsignedTransaction),
    drops: Seq<u16>,
    threshold: int,
    unsigned: Seq<(Vec<u8>, UnsignedTransaction)>,
    pending: Seq<(Vec<u8>, PendingTransaction)>,
    nonce_ci: Seq<(Vec<u8>, Vec<FrostNonce>)>,
    sig_ci: Seq<(Vec<u8>, Vec<FrostSigShare>)>,
    old_nonce_ci: Seq<(Vec<u8>, Vec<FrostNonce>)>,
    old_sig_ci: Seq<(Vec<u8>, Vec<FrostSigShare>)>,
) -> bool {
    if spec_in_nonce_round(row.1) {
        if spec_canonical_nonces(nonce_entry_views(row.1.nonces@), drops).len() >= threshold {
            &&& spec_row_advanced_in(row, drops, unsigned)
            &&& !alist_has_key(nonce_ci, row.0@)
            &&& alist_has_key(sig_ci, row.0@)
        } else {
            &&& spec_row_unchanged_in(row, unsigned)
            &&& alist_has_key(nonce_ci, row.0@) == alist_has_key(old_nonce_ci, row.0@)
            &&& alist_has_key(sig_ci, row.0@) == alist_has_key(old_sig_ci, row.0@)
        }
    } else if row.1.signatures@.len() > 0 {
        spec_row_unchanged_in(row, unsigned) || ((exists|jj: int|
            0 <= jj < pending.len() && (#[trigger] pending[jj]).0@ == row.0@ && spec_finalized_from(
                pending[jj].1,
                row.1,
            )) && !alist_has_key(unsigned, row.0@))
    } else {
        spec_row_unchanged_in(row, unsigned)
    }
}

/// Pushing a row keeps every persistence witness and adds one for the pushed
/// key.
proof fn lemma_persist_after_push(
    pre: Seq<(Vec<u8>, UnsignedTransaction)>,
    post: Seq<(Vec<u8>, UnsignedTransaction)>,
    rows0: Seq<(Vec<u8>, UnsignedTransaction)>,
    j: int,
)
    requires
        0 <= j < rows0.len(),
        post.len() == pre.len() + 1,
        forall|i: int| 0 <= i < pre.len() ==> post[i] == pre[i],
        post.last().0@ == rows0[j].0@,
        forall|oi: int|
            0 <= oi < j && (#[trigger] rows0[oi]).1.signatures@.len() == 0 ==> (exists|i: int|
                0 <= i < pre.len() && (#[trigger] pre[i]).0@ == rows0[oi].0@),
    ensures
        forall|oi: int|
            0 <= oi < j + 1 && (#[trigger] rows0[oi]).1.signatures@.len() == 0 ==> (exists|i: int|
                0 <= i < post.len() && (#[trigger] post[i]).0@ == rows0[oi].0@),
{
    assert forall|oi: int|
        0 <= oi < j + 1 && (#[trigger] rows0[oi]).1.signatures@.len() == 0 implies (exists|i: int|
        0 <= i < post.len() && (#[trigger] post[i]).0@ == rows0[oi].0@) by {
        if oi < j {
            let i = choose|i: int| 0 <= i < pre.len() && (#[trigger] pre[i]).0@ == rows0[oi].0@;
            assert(post[i].0@ == rows0[oi].0@);
        } else {
            assert(post[post.len() - 1].0@ == rows0[j].0@);
        }
    }
}

/// Row outcomes survive pushing a later row: witnesses keep their indices and
/// the pushed key belongs to a different row.
proof fn lemma_outcomes_after_push(
    rows0: Seq<(Vec<u8>, UnsignedTransaction)>,
    j: int,
    drops: Seq<u16>,
    threshold: int,
    pre: Seq<(Vec<u8>, UnsignedTransaction)>,
    post: Seq<(Vec<u8>, UnsignedTransaction)>,
    pending: Seq<(Vec<u8>, PendingTransaction)>,
    nonce_ci: Seq<(Vec<u8>, Vec<FrostNonce>)>,
    sig_ci: Seq<(Vec<u8>, Vec<FrostSigShare>)>,
    old_nonce_ci: Seq<(Vec<u8>, Vec<FrostNonce>)>,
    old_sig_ci: Seq<(Vec<u8>, Vec<FrostSigShare>)>,
)
    requires
        alist_keys_unique(rows0),
        0 <= j < rows0.len(),
        post.len() == pre.len() + 1,
        forall|i: int| 0 <= i < pre.len() ==> post[i] == pre[i],
        post.last().0@ == rows0[j].0@,
        forall|oi: int| 0 <= oi < j ==> spec_row_outcome(#[trigger] rows0[oi], drops, threshold,
            pre, pending, nonce_ci, sig_ci, old_nonce_ci, old_sig_ci),
    ensures
        forall|oi: int| 0 <= oi < j ==> spec_row_outcome(#[trigger] rows0[oi], drops, threshold,
            post, pending, nonce_ci, sig_ci, old_nonce_ci, old_sig_ci),
{
    assert forall|oi: int| 0 <= oi < j implies spec_row_outcome(#[trigger] rows0[oi], drops,
        threshold, post, pending, nonce_ci, sig_ci, old_nonce_ci, old_sig_ci) by {
        let row = rows0[oi];
        assert(row.0@ != rows0[j].0@);
        if spec_row_unchanged_in(row, pre) {
            let i = choose|i: int|
                0 <= i < pre.len() && (#[trigger] pre[i]).0@ == row.0@ && pre[i].1 == row.1;
            assert(post[i].0@ == row.0@ && post[i].1 == row.1);
        }
        if spec_row_advanced_in(row, drops, pre) {
            let i = choose|i: int|
                0 <= i < pre.len() && (#[trigger] pre[i]).0@ == row.0@ && pre[i].1.psbt
                    == row.1.psbt && pre[i].1.signatures == row.1.signatures && pre[i].1.change
                    == row.1.change && pre[i].1.fees == row.1.fees && nonce_entry_views(
                    pre[i].1.nonces@,
                ) == spec_canonical_nonces(nonce_entry_views(row.1.nonces@), drops);
            assert(post[i] == pre[i]);
            assert(spec_row_advanced_in(row, drops, post));
        }
        if !alist_has_key(pre, row.0@) {
            if alist_has_key(post, row.0@) {
                let w = choose|w: int| 0 <= w < post.len() && (#[trigger] post[w]).0@ == row.0@;
                if w < pre.len() {
                    assert(pre[w].0@ == row.0@);
                }
                assert(false);
            }
        }
    }
}

/// Row outcomes survive touching the proposal tables or the pending table
/// under one row's key: every other row's key is untouched.
proof fn lemma_outcomes_after_key_ops(
    rows0: Seq<(Vec<u8>, UnsignedTransaction)>,
    j: int,
    drops: Seq<u16>,
    threshold: int,
    unsigned: Seq<(Vec<u8>, UnsignedTransaction)>,
    pre_pending: Seq<(Vec<u8>, PendingTransaction)>,
    post_pending: Seq<(Vec<u8>, PendingTransaction)>,
    pre_nonce_ci: Seq<(Vec<u8>, Vec<FrostNonce>)>,
    post_nonce_ci: Seq<(Vec<u8>, Vec<FrostNonce>)>,
    pre_sig_ci: Seq<(Vec<u8>, Vec<FrostSigShare>)>,
    post_sig_ci: Seq<(Vec<u8>, Vec<FrostSigShare>)>,
    old_nonce_ci: Seq<(Vec<u8>, Vec<FrostNonce>)>,
    old_sig_ci: Seq<(Vec<u8>, Vec<FrostSigShare>)>,
)
    requires
        alist_keys_unique(rows0),
        0 <= j < rows0.len(),
        // for every key but the processed row's, the tables look the same
        forall|k: Seq<u8>| k != rows0[j].0@ ==> #[trigger] alist_has_key(post_nonce_ci, k)
            == alist_has_key(pre_nonce_ci, k),
        forall|k: Seq<u8>| k != rows0[j].0@ ==> #[trigger] alist_has_key(post_sig_ci, k)
            == alist_has_key(pre_sig_ci, k),
        forall|jj: int| 0 <= jj < pre_pending.len() && (#[trigger] pre_pending[jj]).0@
            != rows0[j].0@ ==> post_pending.contains(pre_pending[jj]),
        forall|oi: int| 0 <= oi < j ==> spec_row_outcome(#[trigger] rows0[oi], drops, threshold,
            unsigned, pre_pending, pre_nonce_ci, pre_sig_ci, old_nonce_ci, old_sig_ci),
    ensures
        forall|oi: int| 0 <= oi < j ==> spec_row_outcome(#[trigger] rows0[oi], drops, threshold,
            unsigned, post_pending, post_nonce_ci, post_sig_ci, old_nonce_ci, old_sig_ci),
{
    assert forall|oi: int| 0 <= oi < j implies spec_row_outcome(#[trigger] rows0[oi], drops,
        threshold, unsigned, post_pending, post_nonce_ci, post_sig_ci, old_nonce_ci, old_sig_ci) by {
        let row = rows0[oi];
        assert(row.0@ != rows0[j].0@);
        assert(alist_has_key(post_nonce_ci, row.0@) == alist_has_key(pre_nonce_ci, row.0@));
        assert(alist_has_key(post_sig_ci, row.0@) == alist_has_key(pre_sig_ci, row.0@));
        if !spec_in_nonce_round(row.1) && row.1.signatures@.len() > 0 && !spec_row_unchanged_in(
            row,
            unsigned,
        ) {
            let jj = choose|jj: int|
                0 <= jj < pre_pending.len() && (#[trigger] pre_pending[jj]).0@ == row.0@
                    && spec_finalized_from(pre_pending[jj].1, row.1);
            assert(post_pending.contains(pre_pending[jj]));
            let jj2 = choose|jj2: int|
                0 <= jj2 < post_pending.len() && post_pending[jj2] == pre_pending[jj];
            assert(post_pending[jj2].0@ == row.0@);
        }
    }
}

impl Wallet {
    /// Run the per-epoch FROST state machine over every transaction awaiting
    /// signatures:
    /// peers that failed to contribute a nonce to a gathering transaction, or
    /// whose signature share for some input is missing or invalid, are
    /// reported for dropping; every gathering transaction whose surviving
    /// nonces reach the threshold gets this peer's signature shares staged and
    /// its nonce proposal withdrawn; every transaction whose shares are
    /// complete is finalized into a broadcastable pending transaction.
    /// A share that fails verification is treated as missing at finalization,
    /// so a later epoch with enough valid shares can still finalize without
    /// the misbehaving peer. `Err` reports a combined signature that failed to
    /// verify — a broken federation; the caller must stop.
    #[verifier::loop_isolation(false)]
    #[verifier::rlimit(60)]
    pub fn end_consensus_epoch(&mut self, consensus_peers: &Vec<u16>) -> (r: Result<
        Vec<u16>,
        ProcessPegOutSigError,
    >)
        requires
            old(self).db.wf(),
            forall|i: int, j: int| 0 <= i < j < consensus_peers@.len()
                ==> consensus_peers@[i] != consensus_peers@[j],
        ensures
            final(self).db.wf(),
            final(self).cfg == old(self).cfg,
            final(self).db.round_consensus == old(self).db.round_consensus,
            final(self).db.block_hashes == old(self).db.block_hashes,
            final(self).db.utxos == old(self).db.utxos,
            r matches Ok(d) ==> {
                &&& (forall|i: int, j: int| 0 <= i < j < d@.len() ==> d@[i] != d@[j])
                // every consensus peer that failed to contribute a nonce to a
                // gathering transaction is reported
                &&& (forall|q: u16|
                    consensus_peers@.contains(q) && spec_missing_nonce_peer(
                        old(self).db.unsigned_transactions@,
                        q,
                    ) ==> d@.contains(q))
                // only consensus peers are reported, and only for a missing
                // nonce or as a signing-coalition member of some
                // signature-round transaction
                &&& (forall|q: u16| d@.contains(q) ==> consensus_peers@.contains(q)
                    && (spec_missing_nonce_peer(old(self).db.unsigned_transactions@, q)
                        || spec_sig_round_participant(old(self).db.unsigned_transactions@, q)))
            },
            r matches Ok(d) ==> {
                // no transaction appears out of nowhere
                &&& (forall|k: Seq<u8>|
                    #[trigger] alist_has_key(final(self).db.unsigned_transactions@, k)
                        ==> alist_has_key(old(self).db.unsigned_transactions@, k))
                // only transactions awaiting finalization can leave the table
                &&& (forall|oi: int|
                    0 <= oi < old(self).db.unsigned_transactions@.len() && (#[trigger] old(self).db.unsigned_transactions@[oi]).1.signatures@.len() == 0 ==> alist_has_key(
                        final(self).db.unsigned_transactions@,
                        old(self).db.unsigned_transactions@[oi].0@,
                    ))
                // a nonce proposal is withdrawn only for a gathering transaction
                &&& (forall|k: Seq<u8>|
                    #[trigger] alist_has_key(old(self).db.peg_out_nonce_ci@, k) && !alist_has_key(
                        final(self).db.peg_out_nonce_ci@,
                        k,
                    ) ==> (exists|oi: int|
                        0 <= oi < old(self).db.unsigned_transactions@.len() && (#[trigger] old(self).db.unsigned_transactions@[oi]).0@ == k && spec_in_nonce_round(
                            old(self).db.unsigned_transactions@[oi].1,
                        )))
                // signature proposals are staged only for gathering transactions
                &&& (forall|k: Seq<u8>|
                    #[trigger] alist_has_key(final(self).db.peg_out_signature_ci@, k)
                        ==> alist_has_key(old(self).db.peg_out_signature_ci@, k) || (exists|oi: int|
                        0 <= oi < old(self).db.unsigned_transactions@.len() && (#[trigger] old(self).db.unsigned_transactions@[oi]).0@ == k && spec_in_nonce_round(
                            old(self).db.unsigned_transactions@[oi].1,
                        )))
                // a finalized transaction is stored under the key of a
                // signature-round row and carries exactly one 64-byte witness
                // on every input
                &&& (forall|jj: int|
                    0 <= jj < final(self).db.pending_transactions@.len() ==> (old(self).db.pending_transactions@.contains(
                        #[trigger] final(self).db.pending_transactions@[jj],
                    ) || ((exists|oi: int|
                        0 <= oi < old(self).db.unsigned_transactions@.len() && (#[trigger] old(self).db.unsigned_transactions@[oi]).0@
                            == final(self).db.pending_transactions@[jj].0@ && old(self).db.unsigned_transactions@[oi].1.signatures@.len() > 0) && (forall|w: int|
                        0 <= w < final(self).db.pending_transactions@[jj].1.tx.input@.len() ==> (
                        #[trigger] final(self).db.pending_transactions@[jj].1.tx.input@[w]).witness@.len()
                            == 1 && final(self).db.pending_transactions@[jj].1.tx.input@[w].witness@[0]@.len() == 64))))
                // the state machine moves: every stored transaction meets its
                // per-row outcome for this epoch's drop set and the configured
                // threshold
                &&& (forall|oi: int|
                    0 <= oi < old(self).db.unsigned_transactions@.len() ==> spec_row_outcome(
                        #[trigger] old(self).db.unsigned_transactions@[oi],
                        d@,
                        old(self).cfg.threshold as int,
                        final(self).db.unsigned_transactions@,
                        final(self).db.pending_transactions@,
                        final(self).db.peg_out_nonce_ci@,
                        final(self).db.peg_out_signature_ci@,
                        old(self).db.peg_out_nonce_ci@,
                        old(self).db.peg_out_signature_ci@,
                    ))
            },
    {
        // fault detection, nonce round
        let mut drop_peers = nonce_round_drop_peers(&self.db.unsigned_transactions, consensus_peers);
        proof {
            assert forall|q: u16| drop_peers@.contains(q) implies consensus_peers@.contains(q)
                && (spec_missing_nonce_peer(old(self).db.unsigned_transactions@, q)
                    || spec_sig_round_participant(old(self).db.unsigned_transactions@, q)) by {}
        }

        // fault detection, signature round
        let mut ti: usize = 0;
        while ti < self.db.unsigned_transactions.len()
            invariant
                ti <= self.db.unsigned_transactions@.len(),
                self.db.wf(),
                forall|i: int, j: int| 0 <= i < j < drop_peers@.len() ==> drop_peers@[i]
                    != drop_peers@[j],
                forall|q: u16| consensus_peers@.contains(q) && spec_missing_nonce_peer(
                    old(self).db.unsigned_transactions@,
                    q,
                ) ==> drop_peers@.contains(q),
                forall|q: u16| drop_peers@.contains(q) ==> consensus_peers@.contains(q)
                    && (spec_missing_nonce_peer(old(self).db.unsigned_transactions@, q)
                        || spec_sig_round_participant(old(self).db.unsigned_transactions@, q)),
            decreases self.db.unsigned_transactions@.len() - ti,
        {
            if self.db.unsigned_transactions[ti].1.signatures.len() > 0 {
                let n_inputs = self.db.unsigned_transactions[ti].1.psbt.inputs.len();
                let mut ii: usize = 0;
                while ii < n_inputs
                    invariant
                        ii <= n_inputs,
                        ti < self.db.unsigned_transactions@.len(),
                        n_inputs == self.db.unsigned_transactions@[ti as int].1.psbt.inputs@.len(),
                        self.db.wf(),
                        forall|i: int, j: int| 0 <= i < j < drop_peers@.len() ==> drop_peers@[i]
                            != drop_peers@[j],
                        forall|q: u16| consensus_peers@.contains(q) && spec_missing_nonce_peer(
                            old(self).db.unsigned_transactions@,
                            q,
                        ) ==> drop_peers@.contains(q),
                        forall|q: u16| drop_peers@.contains(q) ==> consensus_peers@.contains(q)
                            && (spec_missing_nonce_peer(old(self).db.unsigned_transactions@, q)
                                || spec_sig_round_participant(old(self).db.unsigned_transactions@, q)),
                    decreases n_inputs - ii,
                {
                    match self.create_sign_session(&self.db.unsigned_transactions[ti].1, ii) {
                        Some((session, key, _message, _nonces)) => {
                            let participants = distinct_nonce_peers(
                                &self.db.unsigned_transactions[ti].1.nonces,
                            );
                            let mut share_ok: Vec<bool> = Vec::new();
                            let mut k: usize = 0;
                            while k < participants.len()
                                invariant
                                    k <= participants@.len(),
                                    share_ok@.len() == k,
                                decreases participants@.len() - k,
                            {
                                let ok = match find_share(
                                    &self.db.unsigned_transactions[ti].1.signatures,
                                    participants[k],
                                    ii,
                                ) {
                                    Some(share) => frost_verify_share(
                                        &key,
                                        &session,
                                        participants[k],
                                        &share,
                                    ),
                                    None => false,
                                };
                                share_ok.push(ok);
                                k += 1;
                            }
                            let ghost pre_drops = drop_peers@;
                            drops_for_input(&participants, consensus_peers, &share_ok, &mut drop_peers);
                            proof {
                                assert forall|q: u16| drop_peers@.contains(q)
                                    implies consensus_peers@.contains(q) && (spec_missing_nonce_peer(
                                    old(self).db.unsigned_transactions@,
                                    q,
                                ) || spec_sig_round_participant(
                                    old(self).db.unsigned_transactions@,
                                    q,
                                )) by {
                                    if !pre_drops.contains(q) {
                                        let kk = choose|kk: int|
                                            0 <= kk < participants@.len() && (
                                            #[trigger] participants@[kk]) == q
                                                && consensus_peers@.contains(q) && !share_ok@[kk];
                                        assert(participants@.contains(q));
                                        assert(spec_nonce_peers_contain(
                                            self.db.unsigned_transactions@[ti as int].1.nonces@,
                                            q,
                                        ));
                                        assert(spec_sig_round_participant(
                                            self.db.unsigned_transactions@,
                                            q,
                                        ));
                                    }
                                }
                            }
                        },
                        None => {},
                    }
                    ii += 1;
                }
            }
            ti += 1;
        }

        // advance and finalize
        let threshold = self.cfg.threshold;
        let mut rows: Vec<(Vec<u8>, UnsignedTransaction)> = Vec::new();
        core::mem::swap(&mut self.db.unsigned_transactions, &mut rows);
        let ghost rows0 = rows@;
        proof {
            assert(rows0 == old(self).db.unsigned_transactions@);
            assert(alist_keys_unique(rows0));
            assert forall|jj: int| 0 <= jj < self.db.pending_transactions@.len()
                implies old(self).db.pending_transactions@.contains(
                #[trigger] self.db.pending_transactions@[jj],
            ) by {
                assert(old(self).db.pending_transactions@[jj] == self.db.pending_transactions@[jj]);
            }
        }
        let mut rebuilt: Vec<(Vec<u8>, UnsignedTransaction)> = Vec::new();
        let mut j: usize = 0;
        while rows.len() > 0
            invariant
                j + rows@.len() == rows0.len(),
                rows@ == rows0.subrange(j as int, rows0.len() as int),
                self.cfg == old(self).cfg,
                self.db.wf(),
                self.db.unsigned_transactions@.len() == 0,
                self.db.round_consensus == old(self).db.round_consensus,
                self.db.block_hashes == old(self).db.block_hashes,
                self.db.utxos == old(self).db.utxos,
                forall|i: int, j1: int| 0 <= i < j1 < rebuilt@.len() ==> (#[trigger] rebuilt@[i]).0@
                    != (#[trigger] rebuilt@[j1]).0@,
                forall|i: int| 0 <= i < rebuilt@.len() ==> (exists|oi: int|
                    0 <= oi < j && (#[trigger] rebuilt@[i]).0@ == rows0[oi].0@),
                forall|i: int| 0 <= i < rebuilt@.len() ==> crate::tweak::tx_prevouts_wf(
                    (#[trigger] rebuilt@[i]).1.psbt.unsigned_tx,
                ),
                forall|i: int| 0 <= i < rebuilt@.len() ==> (#[trigger] rebuilt@[i]).0@.len() == 32,
                forall|i: int| 0 <= i < rebuilt@.len()
                    ==> (#[trigger] rebuilt@[i]).1.psbt.unsigned_tx.output@.len() <= u32::MAX,
                forall|i: int, j1: int| 0 <= i < j1 < drop_peers@.len() ==> drop_peers@[i]
                    != drop_peers@[j1],
                forall|q: u16| drop_peers@.contains(q) ==> consensus_peers@.contains(q),
                rows0 == old(self).db.unsigned_transactions@,
                forall|k: Seq<u8>|
                    #[trigger] alist_has_key(old(self).db.peg_out_nonce_ci@, k) && !alist_has_key(
                        self.db.peg_out_nonce_ci@,
                        k,
                    ) ==> (exists|oi: int|
                        0 <= oi < rows0.len() && (#[trigger] rows0[oi]).0@ == k
                            && spec_in_nonce_round(rows0[oi].1)),
                forall|k: Seq<u8>| #[trigger] alist_has_key(self.db.peg_out_signature_ci@, k)
                    ==> alist_has_key(old(self).db.peg_out_signature_ci@, k) || (exists|oi: int|
                        0 <= oi < rows0.len() && (#[trigger] rows0[oi]).0@ == k
                            && spec_in_nonce_round(rows0[oi].1)),
                forall|jj: int|
                    0 <= jj < self.db.pending_transactions@.len() ==> (old(self).db.pending_transactions@.contains(
                        #[trigger] self.db.pending_transactions@[jj],
                    ) || ((exists|oi: int|
                        0 <= oi < rows0.len() && (#[trigger] rows0[oi]).0@
                            == self.db.pending_transactions@[jj].0@ && rows0[oi].1.signatures@.len()
                            > 0) && (forall|w: int|
                        0 <= w < self.db.pending_transactions@[jj].1.tx.input@.len() ==> (
                        #[trigger] self.db.pending_transactions@[jj].1.tx.input@[w]).witness@.len()
                            == 1 && self.db.pending_transactions@[jj].1.tx.input@[w].witness@[0]@.len()
                            == 64))),
                forall|oi: int|
                    0 <= oi < j && (#[trigger] rows0[oi]).1.signatures@.len() == 0 ==> (exists|
                        i: int,
                    |
                        0 <= i < rebuilt@.len() && (#[trigger] rebuilt@[i]).0@ == rows0[oi].0@),
                forall|oi: int|
                    0 <= oi < j ==> spec_row_outcome(
                        #[trigger] rows0[oi],
                        drop_peers@,
                        threshold as int,
                        rebuilt@,
                        self.db.pending_transactions@,
                        self.db.peg_out_nonce_ci@,
                        self.db.peg_out_signature_ci@,
                        old(self).db.peg_out_nonce_ci@,
                        old(self).db.peg_out_signature_ci@,
                    ),
                forall|oi: int|
                    j <= oi < rows0.len() ==> alist_has_key(
                        self.db.peg_out_nonce_ci@,
                        (#[trigger] rows0[oi]).0@,
                    ) == alist_has_key(old(self).db.peg_out_nonce_ci@, rows0[oi].0@)
                        && alist_has_key(self.db.peg_out_signature_ci@, rows0[oi].0@)
                        == alist_has_key(old(self).db.peg_out_signature_ci@, rows0[oi].0@),
            decreases rows@.len(),
        {
            let (key_bytes, mut tx) = rows.remove(0);
            let ghost pre_rebuilt_it = rebuilt@;
            let ghost pre_pending_it = self.db.pending_transactions@;
            let ghost pre_nonce_it = self.db.peg_out_nonce_ci@;
            let ghost pre_sig_it = self.db.peg_out_signature_ci@;
            proof {
                assert((key_bytes, tx) == rows0[j as int]);
                assert(key_bytes == rows0[j as int].0);
                assert(tx == rows0[j as int].1);
                assert(rows@ =~= rows0.subrange(j as int + 1, rows0.len() as int));
                assert(alist_keys_unique(pre_nonce_it));
                assert(alist_keys_unique(pre_sig_it));
            }
            let in_nonce_round = tx.nonces.len() > 0 && tx.signatures.len() == 0;
            let in_sig_round = tx.signatures.len() > 0;
            if in_nonce_round {
                let filtered = canonical_nonces(clone_nonce_items(&tx.nonces), &drop_peers);
                proof {
                    assert(nonce_entry_views(filtered@) == spec_canonical_nonces(
                        nonce_entry_views(rows0[j as int].1.nonces@),
                        drop_peers@,
                    ));
                    assert(nonce_entry_views(filtered@).len() == filtered@.len());
                }
                if filtered.len() >= threshold {
                    tx.nonces = filtered;
                    let mut shares: Vec<FrostSigShare> = Vec::new();
                    let n = tx.psbt.inputs.len();
                    let mut ii: usize = 0;
                    while ii < n
                        invariant
                            ii <= n,
                            n == tx.psbt.inputs@.len(),
                            crate::tweak::tx_prevouts_wf(tx.psbt.unsigned_tx),
                        decreases n - ii,
                    {
                        match self.sign_session_params(&tx, ii) {
                            Some((key, message, nonce_list)) => {
                                if nonces_have_peer(&tx.nonces, self.cfg.peer_id) {
                                    let sid = make_sid(ii as u32, &key_bytes);
                                    let kp = frost_gen_nonce(
                                        &self.cfg.frost_key,
                                        &self.cfg.peg_in_key,
                                        &sid,
                                    );
                                    match frost_sign_with_nonces(
                                        &key,
                                        &nonce_list,
                                        &message,
                                        self.cfg.peer_id,
                                        &self.cfg.peg_in_key,
                                        kp,
                                    ) {
                                        Some(share) => {
                                            shares.push(FrostSigShare(share));
                                        },
                                        None => {},
                                    }
                                }
                            },
                            None => {},
                        }
                        ii += 1;
                    }
                    let ghost pre_nonce_ci = self.db.peg_out_nonce_ci@;
                    let _removed_nonce = alist_remove(&mut self.db.peg_out_nonce_ci, &key_bytes);
                    proof {
                        assert forall|k: Seq<u8>|
                            #[trigger] alist_has_key(old(self).db.peg_out_nonce_ci@, k)
                                && !alist_has_key(self.db.peg_out_nonce_ci@, k) implies (exists|
                            oi: int,
                        |
                            0 <= oi < rows0.len() && (#[trigger] rows0[oi]).0@ == k
                                && spec_in_nonce_round(rows0[oi].1)) by {
                            if alist_has_key(pre_nonce_ci, k) {
                                if k == key_bytes@ {
                                    assert(rows0[j as int].0@ == k);
                                    assert(spec_in_nonce_round(rows0[j as int].1));
                                } else {
                                    crate::db::lemma_remove_keeps_other_keys(
                                        pre_nonce_ci,
                                        self.db.peg_out_nonce_ci@,
                                        key_bytes@,
                                        k,
                                    );
                                }
                            }
                        }
                    }
                    let ghost pre_sig_ci = self.db.peg_out_signature_ci@;
                    crate::db::alist_upsert(
                        &mut self.db.peg_out_signature_ci,
                        clone_bytes(&key_bytes),
                        shares,
                    );
                    proof {
                        assert forall|k: Seq<u8>|
                            #[trigger] alist_has_key(self.db.peg_out_signature_ci@, k) implies (
                        alist_has_key(old(self).db.peg_out_signature_ci@, k) || (exists|oi: int|
                            0 <= oi < rows0.len() && (#[trigger] rows0[oi]).0@ == k
                                && spec_in_nonce_round(rows0[oi].1))) by {
                            let w = choose|w: int|
                                0 <= w < self.db.peg_out_signature_ci@.len() && (
                                #[trigger] self.db.peg_out_signature_ci@[w]).0@ == k;
                            if w == self.db.peg_out_signature_ci@.len() - 1 {
                                assert(k == key_bytes@);
                                assert(rows0[j as int].0@ == k);
                                assert(spec_in_nonce_round(rows0[j as int].1));
                            } else {
                                assert(pre_sig_ci.contains(self.db.peg_out_signature_ci@[w]));
                                let w2 = choose|w2: int|
                                    0 <= w2 < pre_sig_ci.len() && pre_sig_ci[w2]
                                        == self.db.peg_out_signature_ci@[w];
                                assert(alist_has_key(pre_sig_ci, k));
                            }
                        }
                    }
                    let ghost pre_rebuilt = rebuilt@;
                    rebuilt.push((key_bytes, tx));
                    proof {
                        lemma_persist_after_push(pre_rebuilt, rebuilt@, rows0, j as int);
                        assert forall|k: Seq<u8>| k != key_bytes@ implies #[trigger] alist_has_key(
                            self.db.peg_out_nonce_ci@,
                            k,
                        ) == alist_has_key(pre_nonce_it, k) by {
                            if alist_has_key(pre_nonce_it, k) {
                                crate::db::lemma_remove_keeps_other_keys(
                                    pre_nonce_it,
                                    self.db.peg_out_nonce_ci@,
                                    key_bytes@,
                                    k,
                                );
                            }
                            if alist_has_key(self.db.peg_out_nonce_ci@, k) && !alist_has_key(
                                pre_nonce_it,
                                k,
                            ) {
                                if _removed_nonce.is_some() {
                                    let i = choose|i: int|
                                        0 <= i < pre_nonce_it.len() && (#[trigger] pre_nonce_it[i]).0@
                                            == key_bytes@ && self.db.peg_out_nonce_ci@
                                            == pre_nonce_it.remove(i);
                                    crate::db::lemma_remove_adds_no_key(
                                        pre_nonce_it,
                                        self.db.peg_out_nonce_ci@,
                                        i,
                                        k,
                                    );
                                }
                            }
                        }
                        assert forall|k: Seq<u8>| k != key_bytes@ implies #[trigger] alist_has_key(
                            self.db.peg_out_signature_ci@,
                            k,
                        ) == alist_has_key(pre_sig_it, k) by {
                            if alist_has_key(pre_sig_it, k) {
                                let w = choose|w: int|
                                    0 <= w < pre_sig_it.len() && (#[trigger] pre_sig_it[w]).0@ == k;
                                assert(self.db.peg_out_signature_ci@.contains(pre_sig_it[w]));
                                let w2 = choose|w2: int|
                                    0 <= w2 < self.db.peg_out_signature_ci@.len()
                                        && self.db.peg_out_signature_ci@[w2] == pre_sig_it[w];
                            }
                            if alist_has_key(self.db.peg_out_signature_ci@, k) {
                                let w = choose|w: int|
                                    0 <= w < self.db.peg_out_signature_ci@.len() && (
                                    #[trigger] self.db.peg_out_signature_ci@[w]).0@ == k;
                                if w < self.db.peg_out_signature_ci@.len() - 1 {
                                    assert(pre_sig_it.contains(self.db.peg_out_signature_ci@[w]));
                                    let w2 = choose|w2: int|
                                        0 <= w2 < pre_sig_it.len() && pre_sig_it[w2]
                                            == self.db.peg_out_signature_ci@[w];
                                }
                            }
                        }
                        assert forall|jj: int|
                            0 <= jj < pre_pending_it.len() && (#[trigger] pre_pending_it[jj]).0@
                                != key_bytes@ implies self.db.pending_transactions@.contains(
                            pre_pending_it[jj],
                        ) by {
                            assert(self.db.pending_transactions@[jj] == pre_pending_it[jj]);
                        }
                        lemma_outcomes_after_key_ops(rows0, j as int, drop_peers@, threshold as int,
                            pre_rebuilt_it, pre_pending_it, self.db.pending_transactions@,
                            pre_nonce_it, self.db.peg_out_nonce_ci@, pre_sig_it,
                            self.db.peg_out_signature_ci@, old(self).db.peg_out_nonce_ci@,
                            old(self).db.peg_out_signature_ci@);
                        lemma_outcomes_after_push(rows0, j as int, drop_peers@, threshold as int,
                            pre_rebuilt_it, rebuilt@, self.db.pending_transactions@,
                            self.db.peg_out_nonce_ci@, self.db.peg_out_signature_ci@,
                            old(self).db.peg_out_nonce_ci@, old(self).db.peg_out_signature_ci@);
                        // the advanced row's own outcome
                        assert(rebuilt@.last().0@ == rows0[j as int].0@);
                        assert(nonce_entry_views(rebuilt@.last().1.nonces@) == spec_canonical_nonces(
                            nonce_entry_views(rows0[j as int].1.nonces@),
                            drop_peers@,
                        ));
                        assert(spec_row_advanced_in(rows0[j as int], drop_peers@, rebuilt@));
                        assert(!alist_has_key(self.db.peg_out_nonce_ci@, key_bytes@)) by {
                            if alist_has_key(self.db.peg_out_nonce_ci@, key_bytes@) {
                                let w = choose|w: int|
                                    0 <= w < self.db.peg_out_nonce_ci@.len() && (
                                    #[trigger] self.db.peg_out_nonce_ci@[w]).0@ == key_bytes@;
                                if _removed_nonce.is_some() {
                                    let i = choose|i: int|
                                        0 <= i < pre_nonce_it.len() && (#[trigger] pre_nonce_it[i]).0@
                                            == key_bytes@ && self.db.peg_out_nonce_ci@
                                            == pre_nonce_it.remove(i);
                                    if w < i {
                                        assert(pre_nonce_it[w].0@ == key_bytes@);
                                    } else {
                                        assert(pre_nonce_it[w + 1].0@ == key_bytes@);
                                    }
                                }
                            }
                        }
                        assert(self.db.peg_out_signature_ci@.last().0@ == key_bytes@);
                        assert(alist_has_key(self.db.peg_out_signature_ci@, key_bytes@));
                        assert(spec_row_outcome(rows0[j as int], drop_peers@, threshold as int,
                            rebuilt@, self.db.pending_transactions@, self.db.peg_out_nonce_ci@,
                            self.db.peg_out_signature_ci@, old(self).db.peg_out_nonce_ci@,
                            old(self).db.peg_out_signature_ci@));
                        assert forall|oi: int| j as int + 1 <= oi < rows0.len() implies
                            alist_has_key(self.db.peg_out_nonce_ci@, (#[trigger] rows0[oi]).0@)
                                == alist_has_key(old(self).db.peg_out_nonce_ci@, rows0[oi].0@)
                                && alist_has_key(self.db.peg_out_signature_ci@, rows0[oi].0@)
                                == alist_has_key(old(self).db.peg_out_signature_ci@, rows0[oi].0@) by {
                            assert(rows0[oi].0@ != key_bytes@);
                        }
                    }
                } else {
                    let ghost pre_rebuilt = rebuilt@;
                    rebuilt.push((key_bytes, tx));
                    proof {
                        lemma_persist_after_push(pre_rebuilt, rebuilt@, rows0, j as int);
                        lemma_outcomes_after_push(rows0, j as int, drop_peers@, threshold as int,
                            pre_rebuilt_it, rebuilt@, self.db.pending_transactions@,
                            self.db.peg_out_nonce_ci@, self.db.peg_out_signature_ci@,
                            old(self).db.peg_out_nonce_ci@, old(self).db.peg_out_signature_ci@);
                        assert(rebuilt@.last().0@ == rows0[j as int].0@);
                        assert(rebuilt@.last().1 == rows0[j as int].1);
                        assert(spec_row_unchanged_in(rows0[j as int], rebuilt@));
                        assert(spec_row_outcome(rows0[j as int], drop_peers@, threshold as int,
                            rebuilt@, self.db.pending_transactions@, self.db.peg_out_nonce_ci@,
                            self.db.peg_out_signature_ci@, old(self).db.peg_out_nonce_ci@,
                            old(self).db.peg_out_signature_ci@));
                    }
                }
            } else if in_sig_round {
                let mut success = tx.psbt.inputs.len() == tx.psbt.unsigned_tx.input.len();
                let mut witnesses: Vec<Vec<u8>> = Vec::new();
                let n = tx.psbt.inputs.len();
                let mut ii: usize = 0;
                while ii < n
                    invariant
                        ii <= n,
                        n == tx.psbt.inputs@.len(),
                        crate::tweak::tx_prevouts_wf(tx.psbt.unsigned_tx),
                        success ==> witnesses@.len() == ii,
                        success ==> tx.psbt.inputs@.len() == tx.psbt.unsigned_tx.input@.len(),
                        forall|w: int| 0 <= w < witnesses@.len() ==> (#[trigger] witnesses@[w])@.len()
                            == 64,
                    decreases n - ii,
                {
                    if success {
                        match self.create_sign_session(&tx, ii) {
                            Some((session, key, message, _nonces)) => {
                                let participants = distinct_nonce_peers(&tx.nonces);
                                let mut collected: Vec<Vec<u8>> = Vec::new();
                                let mut all_present = true;
                                let mut k: usize = 0;
                                while k < participants.len()
                                    invariant
                                        k <= participants@.len(),
                                    decreases participants@.len() - k,
                                {
                                    match find_share(&tx.signatures, participants[k], ii) {
                                        Some(share) => {
                                            // a share that fails verification
                                            // is excluded, so the transaction
                                            // waits for valid shares instead
                                            // of aborting the federation
                                            if frost_verify_share(&key, &session, participants[k], &share) {
                                                collected.push(share);
                                            } else {
                                                all_present = false;
                                            }
                                        },
                                        None => {
                                            all_present = false;
                                        },
                                    }
                                    k += 1;
                                }
                                if all_present {
                                    match frost_combine_shares(&key, &session, &collected) {
                                        Some(signature) => {
                                            if !schnorr_verify(&key, &message, &signature) {
                                                return Err(ProcessPegOutSigError::InvalidSignature);
                                            }
                                            witnesses.push(signature);
                                        },
                                        None => {
                                            success = false;
                                        },
                                    }
                                } else {
                                    success = false;
                                }
                            },
                            None => {
                                success = false;
                            },
                        }
                    }
                    ii += 1;
                }
                if success && witnesses.len() == tx.psbt.unsigned_tx.input.len() {
                    // assemble the broadcastable transaction
                    let mut new_inputs: Vec<TxInput> = Vec::new();
                    let mut wrest = witnesses;
                    let mut irest = tx.psbt.unsigned_tx.input;
                    let ghost inputs0 = irest@;
                    let ghost w0 = wrest@;
                    let mut di: usize = 0;
                    proof {
                        assert(inputs0 == rows0[j as int].1.psbt.unsigned_tx.input@);
                    }
                    while irest.len() > 0
                        invariant
                            di + irest@.len() == inputs0.len(),
                            irest@ == inputs0.subrange(di as int, inputs0.len() as int),
                            wrest@ == w0.subrange(di as int, w0.len() as int),
                            w0.len() == inputs0.len(),
                            forall|w: int| 0 <= w < w0.len() ==> (#[trigger] w0[w])@.len() == 64,
                            new_inputs@.len() == di,
                            forall|w: int| 0 <= w < di ==> (#[trigger] new_inputs@[w]).previous_output
                                == inputs0[w].previous_output && new_inputs@[w].sequence
                                == inputs0[w].sequence && new_inputs@[w].witness@.len() == 1
                                && new_inputs@[w].witness@[0] == w0[w],
                            forall|w: int| 0 <= w < new_inputs@.len()
                                ==> (#[trigger] new_inputs@[w]).previous_output.txid@.len() == 32,
                        decreases irest@.len(),
                    {
                        let ghost irest0 = irest@;
                        let ghost wrest0 = wrest@;
                        let inp = irest.remove(0);
                        let sig = wrest.remove(0);
                        proof {
                            assert(inp == inputs0[di as int]);
                            assert(sig == w0[di as int]);
                            assert(irest@ =~= inputs0.subrange(di as int + 1, inputs0.len() as int));
                            assert(wrest@ =~= w0.subrange(di as int + 1, w0.len() as int));
                        }
                        let mut witness: Vec<Vec<u8>> = Vec::new();
                        witness.push(sig);
                        new_inputs.push(TxInput {
                            previous_output: inp.previous_output,
                            sequence: inp.sequence,
                            witness,
                        });
                        di += 1;
                    }
                    let pending = PendingTransaction {
                        tx: TransactionData {
                            version: tx.psbt.unsigned_tx.version,
                            lock_time: tx.psbt.unsigned_tx.lock_time,
                            input: new_inputs,
                            output: tx.psbt.unsigned_tx.output,
                        },
                        tweak: tx.psbt.change_tweak,
                        change: tx.change,
                    };
                    let ghost pend0 = self.db.pending_transactions@;
                    crate::db::alist_upsert(
                        &mut self.db.pending_transactions,
                        clone_bytes(&key_bytes),
                        pending,
                    );
                    proof {
                        assert forall|i: int| 0 <= i < self.db.pending_transactions@.len()
                            implies crate::tweak::tx_prevouts_wf(
                            (#[trigger] self.db.pending_transactions@[i]).1.tx,
                        ) && self.db.pending_transactions@[i].0@.len() == 32
                            && self.db.pending_transactions@[i].1.tx.output@.len() <= u32::MAX by {
                            if i < self.db.pending_transactions@.len() - 1 {
                                assert(pend0.contains(self.db.pending_transactions@[i]));
                                let w = choose|w: int|
                                    0 <= w < pend0.len() && pend0[w]
                                        == self.db.pending_transactions@[i];
                            }
                        }
                        assert forall|jj: int| 0 <= jj < self.db.pending_transactions@.len()
                            implies (old(self).db.pending_transactions@.contains(
                            #[trigger] self.db.pending_transactions@[jj],
                        ) || ((exists|oi: int|
                            0 <= oi < rows0.len() && (#[trigger] rows0[oi]).0@
                                == self.db.pending_transactions@[jj].0@
                                && rows0[oi].1.signatures@.len() > 0) && (forall|w: int|
                            0 <= w < self.db.pending_transactions@[jj].1.tx.input@.len() ==> (
                            #[trigger] self.db.pending_transactions@[jj].1.tx.input@[w]).witness@.len()
                                == 1
                                && self.db.pending_transactions@[jj].1.tx.input@[w].witness@[0]@.len()
                                == 64))) by {
                            if jj < self.db.pending_transactions@.len() - 1 {
                                assert(pend0.contains(self.db.pending_transactions@[jj]));
                                let w = choose|w: int|
                                    0 <= w < pend0.len() && pend0[w]
                                        == self.db.pending_transactions@[jj];
                            } else {
                                assert(self.db.pending_transactions@[jj].0@ == key_bytes@);
                                assert(rows0[j as int].0@ == key_bytes@);
                                assert(rows0[j as int].1.signatures@.len() > 0);
                            }
                        }
                    }
                    let ghost pre_sig_ci2 = self.db.peg_out_signature_ci@;
                    let removed_sig = alist_remove(&mut self.db.peg_out_signature_ci, &key_bytes);
                    proof {
                        assert forall|k: Seq<u8>|
                            #[trigger] alist_has_key(self.db.peg_out_signature_ci@, k) implies (
                        alist_has_key(old(self).db.peg_out_signature_ci@, k) || (exists|oi: int|
                            0 <= oi < rows0.len() && (#[trigger] rows0[oi]).0@ == k
                                && spec_in_nonce_round(rows0[oi].1))) by {
                            if removed_sig.is_some() {
                                let i = choose|i: int|
                                    0 <= i < pre_sig_ci2.len() && (#[trigger] pre_sig_ci2[i]).0@
                                        == key_bytes@ && self.db.peg_out_signature_ci@
                                        == pre_sig_ci2.remove(i);
                                crate::db::lemma_remove_adds_no_key(
                                    pre_sig_ci2,
                                    self.db.peg_out_signature_ci@,
                                    i,
                                    k,
                                );
                            }
                        }
                        // per-key deltas of this iteration
                        assert forall|k: Seq<u8>| k != key_bytes@ implies #[trigger] alist_has_key(
                            self.db.peg_out_signature_ci@,
                            k,
                        ) == alist_has_key(pre_sig_it, k) by {
                            if alist_has_key(pre_sig_it, k) {
                                crate::db::lemma_remove_keeps_other_keys(
                                    pre_sig_it,
                                    self.db.peg_out_signature_ci@,
                                    key_bytes@,
                                    k,
                                );
                            }
                            if alist_has_key(self.db.peg_out_signature_ci@, k) && !alist_has_key(
                                pre_sig_it,
                                k,
                            ) {
                                if removed_sig.is_some() {
                                    let i = choose|i: int|
                                        0 <= i < pre_sig_it.len() && (#[trigger] pre_sig_it[i]).0@
                                            == key_bytes@ && self.db.peg_out_signature_ci@
                                            == pre_sig_it.remove(i);
                                    crate::db::lemma_remove_adds_no_key(
                                        pre_sig_it,
                                        self.db.peg_out_signature_ci@,
                                        i,
                                        k,
                                    );
                                }
                            }
                        }
                        assert forall|jj: int|
                            0 <= jj < pre_pending_it.len() && (#[trigger] pre_pending_it[jj]).0@
                                != key_bytes@ implies self.db.pending_transactions@.contains(
                            pre_pending_it[jj],
                        ) by {
                            assert(pend0[jj] == pre_pending_it[jj]);
                        }
                        lemma_outcomes_after_key_ops(rows0, j as int, drop_peers@, threshold as int,
                            rebuilt@, pre_pending_it, self.db.pending_transactions@, pre_nonce_it,
                            self.db.peg_out_nonce_ci@, pre_sig_it, self.db.peg_out_signature_ci@,
                            old(self).db.peg_out_nonce_ci@, old(self).db.peg_out_signature_ci@);
                        // the finalized row's own outcome
                        let cur_pend = self.db.pending_transactions@;
                        assert(cur_pend.last().0@ == key_bytes@);
                        assert(spec_finalized_from(cur_pend.last().1, rows0[j as int].1));
                        assert(!alist_has_key(rebuilt@, key_bytes@)) by {
                            if alist_has_key(rebuilt@, key_bytes@) {
                                let w = choose|w: int|
                                    0 <= w < rebuilt@.len() && (#[trigger] rebuilt@[w]).0@
                                        == key_bytes@;
                                let oi2 = choose|oi2: int|
                                    0 <= oi2 < j && (#[trigger] rebuilt@[w as int]).0@
                                        == rows0[oi2].0@;
                                assert(rows0[oi2].0@ == rows0[j as int].0@);
                            }
                        }
                        assert(spec_row_outcome(rows0[j as int], drop_peers@, threshold as int,
                            rebuilt@, self.db.pending_transactions@, self.db.peg_out_nonce_ci@,
                            self.db.peg_out_signature_ci@, old(self).db.peg_out_nonce_ci@,
                            old(self).db.peg_out_signature_ci@));
                        assert forall|oi: int| j as int + 1 <= oi < rows0.len() implies
                            alist_has_key(self.db.peg_out_nonce_ci@, (#[trigger] rows0[oi]).0@)
                                == alist_has_key(old(self).db.peg_out_nonce_ci@, rows0[oi].0@)
                                && alist_has_key(self.db.peg_out_signature_ci@, rows0[oi].0@)
                                == alist_has_key(old(self).db.peg_out_signature_ci@, rows0[oi].0@) by {
                            assert(rows0[oi].0@ != key_bytes@);
                        }
                    }
                    // the unsigned row is consumed
                } else {
                    let ghost pre_rebuilt = rebuilt@;
                    rebuilt.push((key_bytes, tx));
                    proof {
                        lemma_persist_after_push(pre_rebuilt, rebuilt@, rows0, j as int);
                        lemma_outcomes_after_push(rows0, j as int, drop_peers@, threshold as int,
                            pre_rebuilt_it, rebuilt@, self.db.pending_transactions@,
                            self.db.peg_out_nonce_ci@, self.db.peg_out_signature_ci@,
                            old(self).db.peg_out_nonce_ci@, old(self).db.peg_out_signature_ci@);
                        assert(rebuilt@.last().0@ == rows0[j as int].0@);
                        assert(rebuilt@.last().1 == rows0[j as int].1);
                        assert(spec_row_unchanged_in(rows0[j as int], rebuilt@));
                    }
                }
            } else {
                let ghost pre_rebuilt = rebuilt@;
                rebuilt.push((key_bytes, tx));
                proof {
                    lemma_persist_after_push(pre_rebuilt, rebuilt@, rows0, j as int);
                    lemma_outcomes_after_push(rows0, j as int, drop_peers@, threshold as int,
                        pre_rebuilt_it, rebuilt@, self.db.pending_transactions@,
                        self.db.peg_out_nonce_ci@, self.db.peg_out_signature_ci@,
                        old(self).db.peg_out_nonce_ci@, old(self).db.peg_out_signature_ci@);
                    assert(rebuilt@.last().0@ == rows0[j as int].0@);
                    assert(rebuilt@.last().1 == rows0[j as int].1);
                    assert(spec_row_unchanged_in(rows0[j as int], rebuilt@));
                }
            }
            j += 1;
            proof {
                assert(rows@ =~= rows0.subrange(j as int, rows0.len() as int));
            }
        }
        self.db.unsigned_transactions = rebuilt;
        proof {
            assert forall|k: Seq<u8>|
                #[trigger] alist_has_key(self.db.unsigned_transactions@, k) implies alist_has_key(
                old(self).db.unsigned_transactions@,
                k,
            ) by {
                let i = choose|i: int|
                    0 <= i < self.db.unsigned_transactions@.len() && (
                    #[trigger] self.db.unsigned_transactions@[i]).0@ == k;
                let oi = choose|oi: int|
                    0 <= oi < j && (#[trigger] self.db.unsigned_transactions@[i as int]).0@
                        == rows0[oi].0@;
                assert(rows0[oi].0@ == k);
            }
            assert forall|oi: int|
                0 <= oi < old(self).db.unsigned_transactions@.len() && (#[trigger] old(self).db.unsigned_transactions@[oi]).1.signatures@.len() == 0 implies alist_has_key(
                self.db.unsigned_transactions@,
                old(self).db.unsigned_transactions@[oi].0@,
            ) by {
                let i = choose|i: int|
                    0 <= i < self.db.unsigned_transactions@.len() && (
                    #[trigger] self.db.unsigned_transactions@[i]).0@ == rows0[oi].0@;
            }
        }
        Ok(drop_peers)
    }
}

} // verus!
