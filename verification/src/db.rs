//! The wallet's persisted state, modelled as association lists with unique
//! keys, together with the verified lookup and update helpers the state
//! machine uses. The key-value store itself is an external collaborator; this
//! module is the snapshot the epoch handlers are a pure function of.
use vstd::prelude::*;

use crate::types::FrostNonce;
use crate::types::FrostSigShare;
use crate::types::OutPoint;
use crate::types::PendingTransaction;
use crate::types::RoundConsensus;
use crate::types::SpendableUTXO;
use crate::types::UnsignedTransaction;

verus! {

/// Byte-wise equality of two byte vectors.
pub fn bytes_eq(a: &Vec<u8>, b: &Vec<u8>) -> (r: bool)
    ensures
        r == (a@ == b@),
{
    if a.len() != b.len() {
        assert(a@ != b@);
        return false;
    }
    let mut i: usize = 0;
    while i < a.len()
        invariant
            i <= a.len(),
            a@.len() == b@.len(),
            forall|j: int| 0 <= j < i ==> a@[j] == b@[j],
        decreases a.len() - i,
    {
        if a[i] != b[i] {
            return false;
        }
        i += 1;
    }
    assert(a@ =~= b@);
    true
}

/// No two entries share a key.
pub open spec fn alist_keys_unique<V>(s: Seq<(Vec<u8>, V)>) -> bool {
    forall|i: int, j: int| 0 <= i < j < s.len() ==> (#[trigger] s[i]).0@ != (#[trigger] s[j]).0@
}

/// Some entry carries this key.
pub open spec fn alist_has_key<V>(s: Seq<(Vec<u8>, V)>, k: Seq<u8>) -> bool {
    exists|i: int| 0 <= i < s.len() && (#[trigger] s[i]).0@ == k
}

/// Index of the first entry carrying this key.
pub fn alist_find<V>(v: &Vec<(Vec<u8>, V)>, key: &Vec<u8>) -> (r: Option<usize>)
    ensures
        match r {
            Some(i) => i < v@.len() && v@[i as int].0@ == key@
                && (forall|j: int| 0 <= j < i ==> (#[trigger] v@[j]).0@ != key@),
            None => !alist_has_key(v@, key@),
        },
{
    let mut i: usize = 0;
    while i < v.len()
        invariant
            i <= v@.len(),
            forall|j: int| 0 <= j < i ==> (#[trigger] v@[j]).0@ != key@,
        decreases v.len() - i,
    {
        if bytes_eq(&v[i].0, key) {
            return Some(i);
        }
        i += 1;
    }
    None
}

/// Remove the first entry carrying this key, if any.
pub fn alist_remove<V>(v: &mut Vec<(Vec<u8>, V)>, key: &Vec<u8>) -> (r: Option<V>)
    ensures
        match r {
            Some(_) => exists|i: int| 0 <= i < old(v)@.len() && (#[trigger] old(v)@[i]).0@ == key@
                && final(v)@ == old(v)@.remove(i)
                && (forall|j: int| 0 <= j < i ==> (#[trigger] old(v)@[j]).0@ != key@),
            None => final(v)@ == old(v)@ && !alist_has_key(old(v)@, key@),
        },
{
    match alist_find(v, key) {
        Some(i) => {
            let (_, val) = v.remove(i);
            Some(val)
        },
        None => None,
    }
}

/// Removing the entry under one key keeps every other key present.
pub proof fn lemma_remove_keeps_other_keys<V>(
    pre: Seq<(Vec<u8>, V)>,
    post: Seq<(Vec<u8>, V)>,
    key: Seq<u8>,
    k: Seq<u8>,
)
    requires
        (exists|i: int| 0 <= i < pre.len() && (#[trigger] pre[i]).0@ == key && post == pre.remove(i))
            || (post == pre && !alist_has_key(pre, key)),
        k != key,
        alist_has_key(pre, k),
    ensures
        alist_has_key(post, k),
{
    if exists|i: int| 0 <= i < pre.len() && (#[trigger] pre[i]).0@ == key && post == pre.remove(i) {
        let i = choose|i: int|
            0 <= i < pre.len() && (#[trigger] pre[i]).0@ == key && post == pre.remove(i);
        let w = choose|w: int| 0 <= w < pre.len() && (#[trigger] pre[w]).0@ == k;
        assert(w != i);
        if w < i {
            assert(post[w] == pre[w]);
        } else {
            assert(post[w - 1] == pre[w]);
        }
    }
}

/// Removing an entry introduces no key.
pub proof fn lemma_remove_adds_no_key<V>(
    pre: Seq<(Vec<u8>, V)>,
    post: Seq<(Vec<u8>, V)>,
    i: int,
    k: Seq<u8>,
)
    requires
        0 <= i < pre.len(),
        post == pre.remove(i),
        alist_has_key(post, k),
    ensures
        alist_has_key(pre, k),
{
    let w = choose|w: int| 0 <= w < post.len() && (#[trigger] post[w]).0@ == k;
    if w < i {
        assert(pre[w].0@ == k);
    } else {
        assert(pre[w + 1].0@ == k);
    }
}

/// Whether some entry spends this outpoint.
pub open spec fn utxos_have_key(s: Seq<(OutPoint, SpendableUTXO)>, txid: Seq<u8>, vout: u32) -> bool {
    exists|i: int| 0 <= i < s.len() && (#[trigger] s[i]).0.txid@ == txid && s[i].0.vout == vout
}

/// Index of the first entry with this outpoint.
pub fn utxos_find(v: &Vec<(OutPoint, SpendableUTXO)>, txid: &Vec<u8>, vout: u32) -> (r: Option<usize>)
    ensures
        match r {
            Some(i) => i < v@.len() && v@[i as int].0.txid@ == txid@ && v@[i as int].0.vout == vout
                && (forall|j: int| 0 <= j < i
                    ==> !((#[trigger] v@[j]).0.txid@ == txid@ && v@[j].0.vout == vout)),
            None => !utxos_have_key(v@, txid@, vout),
        },
{
    let mut i: usize = 0;
    while i < v.len()
        invariant
            i <= v@.len(),
            forall|j: int| 0 <= j < i
                ==> !((#[trigger] v@[j]).0.txid@ == txid@ && v@[j].0.vout == vout),
        decreases v.len() - i,
    {
        if v[i].0.vout == vout && bytes_eq(&v[i].0.txid, txid) {
            return Some(i);
        }
        i += 1;
    }
    None
}

/// Whether some stored block hash equals this hash.
pub open spec fn hashes_contain(s: Seq<Vec<u8>>, h: Seq<u8>) -> bool {
    exists|i: int| 0 <= i < s.len() && (#[trigger] s[i])@ == h
}

/// Whether this block hash is already stored.
pub fn hashes_find(v: &Vec<Vec<u8>>, h: &Vec<u8>) -> (r: bool)
    ensures
        r == hashes_contain(v@, h@),
{
    let mut i: usize = 0;
    while i < v.len()
        invariant
            i <= v@.len(),
            forall|j: int| 0 <= j < i ==> (#[trigger] v@[j])@ != h@,
        decreases v.len() - i,
    {
        if bytes_eq(&v[i], h) {
            return true;
        }
        i += 1;
    }
    false
}

/// Snapshot of everything the module persists, one field per table of the
/// store: the round consensus singleton, the agreed block hashes, the
/// spendable UTXOs, the transactions awaiting signatures, the transactions
/// awaiting broadcast, and this peer's staged signature and nonce proposals.
pub struct WalletDb {
    pub round_consensus: Option<RoundConsensus>,
    pub block_hashes: Vec<Vec<u8>>,
    pub utxos: Vec<(OutPoint, SpendableUTXO)>,
    pub unsigned_transactions: Vec<(Vec<u8>, UnsignedTransaction)>,
    pub pending_transactions: Vec<(Vec<u8>, PendingTransaction)>,
    pub peg_out_signature_ci: Vec<(Vec<u8>, Vec<FrostSigShare>)>,
    pub peg_out_nonce_ci: Vec<(Vec<u8>, Vec<FrostNonce>)>,
}

impl WalletDb {
    /// Key discipline of the store: keys are unique, transaction ids are
    /// 32 bytes, and every pending transaction can be re-serialized (its
    /// inputs' previous transaction ids are 32 bytes).
    pub open spec fn wf(&self) -> bool {
        &&& alist_keys_unique(self.unsigned_transactions@)
        &&& alist_keys_unique(self.pending_transactions@)
        &&& alist_keys_unique(self.peg_out_signature_ci@)
        &&& alist_keys_unique(self.peg_out_nonce_ci@)
        &&& forall|i: int, j: int| 0 <= i < j < self.utxos@.len()
            ==> !((#[trigger] self.utxos@[i]).0.txid@ == (#[trigger] self.utxos@[j]).0.txid@
                && self.utxos@[i].0.vout == self.utxos@[j].0.vout)
        &&& forall|i: int| 0 <= i < self.utxos@.len()
            ==> (#[trigger] self.utxos@[i]).0.txid@.len() == 32
        &&& forall|i: int| 0 <= i < self.pending_transactions@.len()
            ==> crate::tweak::tx_prevouts_wf((#[trigger] self.pending_transactions@[i]).1.tx)
        &&& forall|i: int| 0 <= i < self.pending_transactions@.len()
            ==> (#[trigger] self.pending_transactions@[i]).0@.len() == 32
        &&& forall|i: int| 0 <= i < self.pending_transactions@.len()
            ==> (#[trigger] self.pending_transactions@[i]).1.tx.output@.len() <= u32::MAX
        &&& forall|i: int| 0 <= i < self.unsigned_transactions@.len()
            ==> crate::tweak::tx_prevouts_wf((#[trigger] self.unsigned_transactions@[i]).1.psbt.unsigned_tx)
        &&& forall|i: int| 0 <= i < self.unsigned_transactions@.len()
            ==> (#[trigger] self.unsigned_transactions@[i]).0@.len() == 32
        &&& forall|i: int| 0 <= i < self.unsigned_transactions@.len()
            ==> (#[trigger] self.unsigned_transactions@[i]).1.psbt.unsigned_tx.output@.len() <= u32::MAX
    }

    /// An empty store, the state before any consensus has been processed.
    pub fn new() -> (r: WalletDb)
        ensures
            r.wf(),
            r.round_consensus.is_none(),
            r.block_hashes@.len() == 0,
            r.utxos@.len() == 0,
            r.unsigned_transactions@.len() == 0,
            r.pending_transactions@.len() == 0,
            r.peg_out_signature_ci@.len() == 0,
            r.peg_out_nonce_ci@.len() == 0,
    {
        WalletDb {
            round_consensus: None,
            block_hashes: Vec::new(),
            utxos: Vec::new(),
            unsigned_transactions: Vec::new(),
            pending_transactions: Vec::new(),
            peg_out_signature_ci: Vec::new(),
            peg_out_nonce_ci: Vec::new(),
        }
    }
}

} // verus!

verus! {

/// A by-value copy of a byte vector.
pub fn clone_bytes(v: &Vec<u8>) -> (r: Vec<u8>)
    ensures
        r@ == v@,
{
    let mut c: Vec<u8> = Vec::new();
    let mut i: usize = 0;
    while i < v.len()
        invariant
            i <= v@.len(),
            c@ == v@.subrange(0, i as int),
        decreases v@.len() - i,
    {
        c.push(v[i]);
        i += 1;
        proof {
            assert(c@ =~= v@.subrange(0, i as int));
        }
    }
    proof {
        assert(c@ =~= v@);
    }
    c
}

} // verus!

verus! {

/// Ghost view of one spendable-UTXO entry: the outpoint and payload as plain
/// sequences and integers, insensitive to copying.
pub struct UtxoEntryV {
    pub txid: Seq<u8>,
    pub vout: u32,
    pub tweak: Seq<u8>,
    pub amount: u64,
}

/// The view of one entry.
pub open spec fn utxo_view(e: (OutPoint, SpendableUTXO)) -> UtxoEntryV {
    UtxoEntryV { txid: e.0.txid@, vout: e.0.vout, tweak: e.1.tweak@, amount: e.1.amount }
}

/// The view of a whole UTXO table.
pub open spec fn utxo_views(s: Seq<(OutPoint, SpendableUTXO)>) -> Seq<UtxoEntryV> {
    s.map_values(|e: (OutPoint, SpendableUTXO)| utxo_view(e))
}

/// A by-value copy of the UTXO table (same view).
pub fn clone_utxos(v: &Vec<(OutPoint, SpendableUTXO)>) -> (r: Vec<(OutPoint, SpendableUTXO)>)
    ensures
        utxo_views(r@) == utxo_views(v@),
        r@.len() == v@.len(),
{
    let mut c: Vec<(OutPoint, SpendableUTXO)> = Vec::new();
    let mut i: usize = 0;
    while i < v.len()
        invariant
            i <= v@.len(),
            c@.len() == i,
            forall|j: int| 0 <= j < i ==> utxo_view(#[trigger] c@[j]) == utxo_view(v@[j]),
        decreases v@.len() - i,
    {
        let op = OutPoint { txid: clone_bytes(&v[i].0.txid), vout: v[i].0.vout };
        let ut = SpendableUTXO { tweak: clone_bytes(&v[i].1.tweak), amount: v[i].1.amount };
        c.push((op, ut));
        i += 1;
    }
    proof {
        assert(utxo_views(c@) =~= utxo_views(v@));
    }
    c
}

} // verus!

verus! {

/// Replace the entry under `key`, or append one: the result's last entry is
/// `(key, val)`, every other entry was already present, and keys stay unique.
pub fn alist_upsert<V>(v: &mut Vec<(Vec<u8>, V)>, key: Vec<u8>, val: V)
    requires
        alist_keys_unique(old(v)@),
    ensures
        alist_keys_unique(final(v)@),
        final(v)@.len() >= 1,
        final(v)@.last().0 == key,
        final(v)@.last().1 == val,
        forall|j: int| 0 <= j < final(v)@.len() - 1 ==> old(v)@.contains(#[trigger] final(v)@[j]),
        forall|j: int| 0 <= j < old(v)@.len() && (#[trigger] old(v)@[j]).0@ != key@
            ==> final(v)@.contains(old(v)@[j]),
{
    let ghost pre = v@;
    let ghost mut removed_at: Option<int> = None;
    match alist_find(v, &key) {
        Some(i) => {
            v.remove(i);
            proof {
                removed_at = Some(i as int);
                assert(v@ =~= pre.remove(i as int));
            }
        },
        None => {},
    }
    let ghost mid = v@;
    v.push((key, val));
    proof {
        assert(v@.last() == (key, val));
        assert forall|j: int| 0 <= j < v@.len() - 1 implies pre.contains(#[trigger] v@[j]) by {
            assert(v@[j] == mid[j]);
            match removed_at {
                Some(i) => {
                    if j < i {
                        assert(mid[j] == pre[j]);
                    } else {
                        assert(mid[j] == pre[j + 1]);
                    }
                },
                None => {
                    assert(mid[j] == pre[j]);
                },
            }
        }
        assert forall|j: int| 0 <= j < pre.len() && (#[trigger] pre[j]).0@ != key@
            implies v@.contains(pre[j]) by {
            match removed_at {
                Some(i) => {
                    let m = if j < i { j } else { j - 1 };
                    assert(j != i);
                    if j < i {
                        assert(v@[j] == pre[j]);
                    } else {
                        assert(v@[j - 1] == pre[j]);
                    }
                },
                None => {
                    assert(v@[j] == pre[j]);
                },
            }
        }
        assert forall|i1: int, i2: int| 0 <= i1 < i2 < v@.len() implies (#[trigger] v@[i1]).0@ != (
        #[trigger] v@[i2]).0@ by {
            if i2 == v@.len() - 1 {
                // the appended key was removed from (or absent in) the rest
                match removed_at {
                    Some(i) => {
                        if i1 < i {
                            assert(mid[i1] == pre[i1]);
                            assert(pre[i1].0@ != pre[i].0@);
                        } else {
                            assert(mid[i1] == pre[i1 + 1]);
                            assert(pre[i1 + 1].0@ != pre[i].0@);
                        }
                    },
                    None => {
                        assert(!alist_has_key(pre, key@));
                        assert(mid[i1] == pre[i1]);
                    },
                }
            } else {
                match removed_at {
                    Some(i) => {
                        let m1 = if i1 < i { i1 } else { i1 + 1 };
                        let m2 = if i2 < i { i2 } else { i2 + 1 };
                        assert(mid[i1] == pre[m1]);
                        assert(mid[i2] == pre[m2]);
                    },
                    None => {
                        assert(mid[i1] == pre[i1]);
                        assert(mid[i2] == pre[i2]);
                    },
                }
            }
        }
    }
}

} // verus!
