//! The chain follower: walks the agreed chain forward from the last consensus
//! height, records every block hash, and turns change outputs that pay a
//! tweaked federation script back into spendable UTXOs.
use vstd::prelude::*;

use crate::db::UtxoEntryV;
use crate::db::bytes_eq;
use crate::db::clone_bytes;
use crate::db::hashes_find;
use crate::db::utxo_view;
use crate::db::utxo_views;
use crate::db::utxos_find;
use crate::tweak::tweaked_script_of;
use crate::types::BlockInfo;
use crate::types::OutPoint;
use crate::types::PendingTransaction;
use crate::types::SpendableUTXO;
use crate::wallet::Wallet;

verus! {

/// Some UTXO entry has exactly these fields.
pub open spec fn has_utxo_entry(
    s: Seq<UtxoEntryV>,
    txid: Seq<u8>,
    vout: u32,
    tweak: Seq<u8>,
    amount: u64,
) -> bool {
    s.contains(UtxoEntryV { txid, vout, tweak, amount })
}

/// Every output of `ptx` that pays the script derived from its tweak is
/// recorded as a spendable UTXO under `key`.
pub open spec fn change_recognized(
    views: Seq<UtxoEntryV>,
    desc: Seq<char>,
    key: Seq<u8>,
    ptx: PendingTransaction,
) -> bool {
    forall|idx: int|
        0 <= idx < ptx.tx.output@.len() && tweaked_script_of(desc, ptx.tweak@).is_some() && (
        #[trigger] ptx.tx.output@[idx]).script_pubkey@ == tweaked_script_of(desc, ptx.tweak@).unwrap()
            ==> has_utxo_entry(views, key, idx as u32, ptx.tweak@, ptx.tx.output@[idx].value)
}

/// Exactly the record change recognition writes for one matching output of
/// `ptx`: keyed by `key` and the output index, carrying the stored tweak and
/// the output's value.
pub open spec fn recognized_entry(
    e: UtxoEntryV,
    desc: Seq<char>,
    key: Seq<u8>,
    ptx: PendingTransaction,
) -> bool {
    exists|idx: int|
        0 <= idx < ptx.tx.output@.len() && tweaked_script_of(desc, ptx.tweak@).is_some() && (
        #[trigger] ptx.tx.output@[idx]).script_pubkey@ == tweaked_script_of(desc, ptx.tweak@).unwrap()
            && e == (UtxoEntryV {
            txid: key,
            vout: idx as u32,
            tweak: ptx.tweak@,
            amount: ptx.tx.output@[idx].value,
        })
}

/// The block height currently agreed on, zero before any round.
pub open spec fn spec_height(db: crate::db::WalletDb) -> int {
    match db.round_consensus {
        Some(rc) => rc.block_height as int,
        None => 0int,
    }
}

impl Wallet {
    /// Record a confirmed peg-out's change: every output of the pending
    /// transaction that pays the script derived from its stored tweak becomes
    /// a spendable UTXO under that tweak, keyed by the transaction id it was
    /// stored under.
    #[verifier::loop_isolation(false)]
    pub fn recognize_change_utxo(&mut self, txid: &Vec<u8>, pending_tx: &PendingTransaction)
        requires
            old(self).db.wf(),
            txid@.len() == 32,
            pending_tx.tx.output@.len() <= u32::MAX,
        ensures
            final(self).db.wf(),
            final(self).cfg == old(self).cfg,
            final(self).db.round_consensus == old(self).db.round_consensus,
            final(self).db.block_hashes == old(self).db.block_hashes,
            final(self).db.unsigned_transactions == old(self).db.unsigned_transactions,
            final(self).db.pending_transactions == old(self).db.pending_transactions,
            final(self).db.peg_out_signature_ci == old(self).db.peg_out_signature_ci,
            final(self).db.peg_out_nonce_ci == old(self).db.peg_out_nonce_ci,
            change_recognized(
                utxo_views(final(self).db.utxos@),
                old(self).cfg.peg_in_descriptor@,
                txid@,
                *pending_tx,
            ),
            forall|k: int|
                0 <= k < old(self).db.utxos@.len() && (#[trigger] utxo_views(old(self).db.utxos@)[k]).txid
                    != txid@ ==> utxo_views(final(self).db.utxos@).contains(
                    utxo_views(old(self).db.utxos@)[k],
                ),
            forall|k: int|
                0 <= k < final(self).db.utxos@.len() ==> (utxo_views(old(self).db.utxos@).contains(
                    #[trigger] utxo_views(final(self).db.utxos@)[k],
                ) || recognized_entry(
                    utxo_views(final(self).db.utxos@)[k],
                    old(self).cfg.peg_in_descriptor@,
                    txid@,
                    *pending_tx,
                )),
    {
        let script = match crate::tweak::derive_script_bytes(
            &self.cfg.peg_in_descriptor,
            &pending_tx.tweak,
        ) {
            Some(s) => s,
            None => {
                return ;
            },
        };
        let ghost old_views = utxo_views(self.db.utxos@);
        let mut idx: usize = 0;
        while idx < pending_tx.tx.output.len()
            invariant
                idx <= pending_tx.tx.output@.len(),
                self.cfg == old(self).cfg,
                self.db.round_consensus == old(self).db.round_consensus,
                self.db.block_hashes == old(self).db.block_hashes,
                self.db.unsigned_transactions == old(self).db.unsigned_transactions,
                self.db.pending_transactions == old(self).db.pending_transactions,
                self.db.peg_out_signature_ci == old(self).db.peg_out_signature_ci,
                self.db.peg_out_nonce_ci == old(self).db.peg_out_nonce_ci,
                self.db.wf(),
                script@ == tweaked_script_of(old(self).cfg.peg_in_descriptor@, pending_tx.tweak@).unwrap(),
                tweaked_script_of(old(self).cfg.peg_in_descriptor@, pending_tx.tweak@).is_some(),
                forall|m: int|
                    0 <= m < idx && (#[trigger] pending_tx.tx.output@[m]).script_pubkey@ == script@
                        ==> has_utxo_entry(
                        utxo_views(self.db.utxos@),
                        txid@,
                        m as u32,
                        pending_tx.tweak@,
                        pending_tx.tx.output@[m].value,
                    ),
                forall|k: int|
                    0 <= k < old_views.len() && (#[trigger] old_views[k]).txid != txid@
                        ==> utxo_views(self.db.utxos@).contains(old_views[k]),
                forall|k: int|
                    0 <= k < self.db.utxos@.len() ==> (old_views.contains(
                        #[trigger] utxo_views(self.db.utxos@)[k],
                    ) || recognized_entry(
                        utxo_views(self.db.utxos@)[k],
                        old(self).cfg.peg_in_descriptor@,
                        txid@,
                        *pending_tx,
                    )),
            decreases pending_tx.tx.output@.len() - idx,
        {
            if bytes_eq(&pending_tx.tx.output[idx].script_pubkey, &script) {
                let op = OutPoint { txid: clone_bytes(txid), vout: idx as u32 };
                let utxo = SpendableUTXO {
                    tweak: clone_bytes(&pending_tx.tweak),
                    amount: pending_tx.tx.output[idx].value,
                };
                let ghost new_entry = utxo_view((op, utxo));
                let ghost pre_views = utxo_views(self.db.utxos@);
                match utxos_find(&self.db.utxos, txid, idx as u32) {
                    Some(i) => {
                        proof {
                            assert(pre_views[i as int] == utxo_view(self.db.utxos@[i as int]));
                        }
                        self.db.utxos.set(i, (op, utxo));
                        proof {
                            assert(utxo_views(self.db.utxos@) =~= pre_views.update(i as int, new_entry));
                            let cur = utxo_views(self.db.utxos@);
                            assert(cur[i as int] == new_entry);
                            assert(cur.contains(new_entry));
                            assert(pre_views[i as int].txid == txid@);
                            assert(pre_views[i as int].vout == idx as u32);
                            assert forall|w: int| 0 <= w < pre_views.len() && w != i as int
                                implies cur[w] == pre_views[w] by {}
                            assert forall|k: int|
                                0 <= k < old_views.len() && (#[trigger] old_views[k]).txid != txid@
                                implies cur.contains(old_views[k]) by {
                                let w = choose|w: int|
                                    0 <= w < pre_views.len() && pre_views[w] == old_views[k];
                                assert(w != i as int);
                                assert(cur[w] == old_views[k]);
                            }
                        }
                    },
                    None => {
                        self.db.utxos.push((op, utxo));
                        proof {
                            assert(utxo_views(self.db.utxos@) =~= pre_views.push(new_entry));
                            let cur = utxo_views(self.db.utxos@);
                            assert(cur[pre_views.len() as int] == new_entry);
                            assert(cur.contains(new_entry));
                            assert forall|k: int|
                                0 <= k < old_views.len() && (#[trigger] old_views[k]).txid != txid@
                                implies cur.contains(old_views[k]) by {
                                let w = choose|w: int|
                                    0 <= w < pre_views.len() && pre_views[w] == old_views[k];
                                assert(cur[w] == old_views[k]);
                            }
                        }
                    },
                }
                proof {
                    let cur = utxo_views(self.db.utxos@);
                    assert(cur.contains(new_entry));
                    assert forall|m: int|
                        0 <= m < idx + 1 && (#[trigger] pending_tx.tx.output@[m]).script_pubkey@
                            == script@ implies has_utxo_entry(
                        cur,
                        txid@,
                        m as u32,
                        pending_tx.tweak@,
                        pending_tx.tx.output@[m].value,
                    ) by {
                        let e = UtxoEntryV {
                            txid: txid@,
                            vout: m as u32,
                            tweak: pending_tx.tweak@,
                            amount: pending_tx.tx.output@[m].value,
                        };
                        if m == idx {
                            assert(e == new_entry);
                        } else {
                            assert(has_utxo_entry(pre_views, txid@, m as u32, pending_tx.tweak@,
                                pending_tx.tx.output@[m].value));
                            let w = choose|w: int| 0 <= w < pre_views.len() && pre_views[w] == e;
                            assert(pre_views[w].vout == m as u32);
                            assert(m as u32 != idx as u32);
                            assert(cur[w] == pre_views[w]);
                        }
                    }
                }
            }
            idx += 1;
        }
    }

    /// Follow the agreed chain up to the new consensus height: nothing happens
    /// when the height does not grow; otherwise every fetched block's hash is
    /// recorded (in order), and every pending transaction confirmed by one of
    /// those blocks has its change recognized as spendable UTXOs.
    #[verifier::loop_isolation(false)]
    pub fn sync_up_to_consensus_height(&mut self, new_height: u32, blocks: &Vec<BlockInfo>)
        requires
            old(self).db.wf(),
            new_height > spec_height(old(self).db) ==> blocks@.len() == new_height - spec_height(
                old(self).db,
            ),
        ensures
            final(self).db.wf(),
            final(self).cfg == old(self).cfg,
            new_height <= spec_height(old(self).db) ==> *final(self) == *old(self),
            final(self).db.round_consensus == old(self).db.round_consensus,
            final(self).db.unsigned_transactions == old(self).db.unsigned_transactions,
            final(self).db.pending_transactions == old(self).db.pending_transactions,
            final(self).db.peg_out_signature_ci == old(self).db.peg_out_signature_ci,
            final(self).db.peg_out_nonce_ci == old(self).db.peg_out_nonce_ci,
            new_height > spec_height(old(self).db) ==> {
                &&& final(self).db.block_hashes@.len() == old(self).db.block_hashes@.len()
                    + blocks@.len()
                &&& (forall|j: int| 0 <= j < old(self).db.block_hashes@.len()
                    ==> final(self).db.block_hashes@[j] == old(self).db.block_hashes@[j])
                &&& (forall|j: int| 0 <= j < blocks@.len()
                    ==> (#[trigger] final(self).db.block_hashes@[old(self).db.block_hashes@.len()
                        + j])@ == blocks@[j].hash@)
            },
            // change recognition: every pending transaction confirmed by one
            // of the fetched blocks has its matching change outputs recorded
            forall|b: int, p: int|
                0 <= b < blocks@.len() && 0 <= p < old(self).db.pending_transactions@.len()
                    && new_height > spec_height(old(self).db) && crate::db::hashes_contain(
                    (#[trigger] blocks@[b]).txids@,
                    (#[trigger] old(self).db.pending_transactions@[p]).0@,
                ) ==> change_recognized(
                    utxo_views(final(self).db.utxos@),
                    old(self).cfg.peg_in_descriptor@,
                    old(self).db.pending_transactions@[p].0@,
                    old(self).db.pending_transactions@[p].1,
                ),
            // no UTXO appears out of nowhere: every entry was already present
            // or is the recognized change of some pending transaction
            forall|k: int|
                0 <= k < final(self).db.utxos@.len() ==> (utxo_views(old(self).db.utxos@).contains(
                    #[trigger] utxo_views(final(self).db.utxos@)[k],
                ) || (exists|p: int|
                    0 <= p < old(self).db.pending_transactions@.len() && recognized_entry(
                        utxo_views(final(self).db.utxos@)[k],
                        old(self).cfg.peg_in_descriptor@,
                        (#[trigger] old(self).db.pending_transactions@[p]).0@,
                        old(self).db.pending_transactions@[p].1,
                    ))),
    {
        let old_height = match self.consensus_height() {
            Some(h) => h,
            None => 0,
        };
        if new_height <= old_height {
            return ;
        }
        let mut pendings: Vec<(Vec<u8>, PendingTransaction)> = Vec::new();
        proof {
            assert(old(self).db.pending_transactions == self.db.pending_transactions);
        }
        core::mem::swap(&mut self.db.pending_transactions, &mut pendings);
        let ghost pend = pendings@;
        proof {
            assert forall|k: int| 0 <= k < self.db.utxos@.len()
                implies utxo_views(old(self).db.utxos@).contains(
                #[trigger] utxo_views(self.db.utxos@)[k],
            ) by {
                assert(utxo_views(old(self).db.utxos@)[k] == utxo_views(self.db.utxos@)[k]);
            }
        }
        let mut b: usize = 0;
        while b < blocks.len()
            invariant
                b <= blocks@.len(),
                pendings@ == pend,
                pend == old(self).db.pending_transactions@,
                self.cfg == old(self).cfg,
                self.db.wf(),
                self.db.pending_transactions@.len() == 0,
                self.db.round_consensus == old(self).db.round_consensus,
                self.db.unsigned_transactions == old(self).db.unsigned_transactions,
                self.db.peg_out_signature_ci == old(self).db.peg_out_signature_ci,
                self.db.peg_out_nonce_ci == old(self).db.peg_out_nonce_ci,
                self.db.block_hashes@.len() == old(self).db.block_hashes@.len() + b,
                forall|j: int| 0 <= j < old(self).db.block_hashes@.len()
                    ==> self.db.block_hashes@[j] == old(self).db.block_hashes@[j],
                forall|j: int| 0 <= j < b
                    ==> (#[trigger] self.db.block_hashes@[old(self).db.block_hashes@.len() + j])@
                        == blocks@[j].hash@,
                forall|k: int|
                    0 <= k < self.db.utxos@.len() ==> (utxo_views(old(self).db.utxos@).contains(
                        #[trigger] utxo_views(self.db.utxos@)[k],
                    ) || (exists|pp: int|
                        0 <= pp < pend.len() && recognized_entry(
                            utxo_views(self.db.utxos@)[k],
                            old(self).cfg.peg_in_descriptor@,
                            (#[trigger] pend[pp]).0@,
                            pend[pp].1,
                        ))),
                forall|bi: int, pi: int|
                    0 <= bi < b && 0 <= pi < pend.len() && crate::db::hashes_contain(
                        (#[trigger] blocks@[bi]).txids@,
                        (#[trigger] pend[pi]).0@,
                    ) ==> change_recognized(
                        utxo_views(self.db.utxos@),
                        old(self).cfg.peg_in_descriptor@,
                        pend[pi].0@,
                        pend[pi].1,
                    ),
            decreases blocks@.len() - b,
        {
            let mut p: usize = 0;
            while p < pendings.len()
                invariant
                    p <= pend.len(),
                    pendings@ == pend,
                    pend == old(self).db.pending_transactions@,
                    self.cfg == old(self).cfg,
                    self.db.wf(),
                    self.db.pending_transactions@.len() == 0,
                    self.db.round_consensus == old(self).db.round_consensus,
                    self.db.unsigned_transactions == old(self).db.unsigned_transactions,
                    self.db.peg_out_signature_ci == old(self).db.peg_out_signature_ci,
                    self.db.peg_out_nonce_ci == old(self).db.peg_out_nonce_ci,
                    self.db.block_hashes@.len() == old(self).db.block_hashes@.len() + b,
                    forall|j: int| 0 <= j < old(self).db.block_hashes@.len()
                        ==> self.db.block_hashes@[j] == old(self).db.block_hashes@[j],
                    forall|j: int| 0 <= j < b
                        ==> (#[trigger] self.db.block_hashes@[old(self).db.block_hashes@.len() + j])@
                            == blocks@[j].hash@,
                    forall|k: int|
                        0 <= k < self.db.utxos@.len() ==> (utxo_views(old(self).db.utxos@).contains(
                            #[trigger] utxo_views(self.db.utxos@)[k],
                        ) || (exists|pp: int|
                            0 <= pp < pend.len() && recognized_entry(
                                utxo_views(self.db.utxos@)[k],
                                old(self).cfg.peg_in_descriptor@,
                                (#[trigger] pend[pp]).0@,
                                pend[pp].1,
                            ))),
                    forall|bi: int, pi: int|
                        ((0 <= bi < b && 0 <= pi < pend.len()) || (bi == b && 0 <= pi < p))
                            && crate::db::hashes_contain(
                            (#[trigger] blocks@[bi]).txids@,
                            (#[trigger] pend[pi]).0@,
                        ) ==> change_recognized(
                            utxo_views(self.db.utxos@),
                            old(self).cfg.peg_in_descriptor@,
                            pend[pi].0@,
                            pend[pi].1,
                        ),
                decreases pend.len() - p,
            {
                if hashes_find(&blocks[b].txids, &pendings[p].0) {
                    let ghost pre_views = utxo_views(self.db.utxos@);
                    let ghost t2 = pendings@[p as int].0@;
                    self.recognize_change_utxo(&pendings[p].0, &pendings[p].1);
                    proof {
                        assert forall|k: int|
                            0 <= k < self.db.utxos@.len() implies (utxo_views(
                            old(self).db.utxos@,
                        ).contains(#[trigger] utxo_views(self.db.utxos@)[k]) || (exists|pp: int|
                            0 <= pp < pend.len() && recognized_entry(
                                utxo_views(self.db.utxos@)[k],
                                old(self).cfg.peg_in_descriptor@,
                                (#[trigger] pend[pp]).0@,
                                pend[pp].1,
                            ))) by {
                            let e = utxo_views(self.db.utxos@)[k];
                            if !utxo_views(old(self).db.utxos@).contains(e) {
                                if pre_views.contains(e) {
                                    let w = choose|w: int|
                                        0 <= w < pre_views.len() && pre_views[w] == e;
                                } else {
                                    assert(recognized_entry(
                                        e,
                                        old(self).cfg.peg_in_descriptor@,
                                        t2,
                                        pend[p as int].1,
                                    ));
                                    assert(pend[p as int].0@ == t2);
                                }
                            }
                        }
                        assert forall|bi: int, pi: int|
                            ((0 <= bi < b && 0 <= pi < pend.len()) || (bi == b && 0 <= pi <= p))
                                && crate::db::hashes_contain(
                                (#[trigger] blocks@[bi]).txids@,
                                (#[trigger] pend[pi]).0@,
                            ) implies change_recognized(
                                utxo_views(self.db.utxos@),
                                old(self).cfg.peg_in_descriptor@,
                                pend[pi].0@,
                                pend[pi].1,
                            ) by {
                            if pend[pi].0@ == t2 {
                                assert(pi == p);
                            } else {
                                if (bi < b && pi < pend.len()) || pi < p {
                                    assert forall|idx: int|
                                        0 <= idx < pend[pi].1.tx.output@.len() && tweaked_script_of(
                                            old(self).cfg.peg_in_descriptor@,
                                            pend[pi].1.tweak@,
                                        ).is_some() && (#[trigger] pend[pi].1.tx.output@[idx]).script_pubkey@
                                            == tweaked_script_of(
                                            old(self).cfg.peg_in_descriptor@,
                                            pend[pi].1.tweak@,
                                        ).unwrap() implies has_utxo_entry(
                                            utxo_views(self.db.utxos@),
                                            pend[pi].0@,
                                            idx as u32,
                                            pend[pi].1.tweak@,
                                            pend[pi].1.tx.output@[idx].value,
                                        ) by {
                                        let e = UtxoEntryV {
                                            txid: pend[pi].0@,
                                            vout: idx as u32,
                                            tweak: pend[pi].1.tweak@,
                                            amount: pend[pi].1.tx.output@[idx].value,
                                        };
                                        assert(has_utxo_entry(pre_views, pend[pi].0@, idx as u32,
                                            pend[pi].1.tweak@, pend[pi].1.tx.output@[idx].value));
                                        let w = choose|w: int|
                                            0 <= w < pre_views.len() && pre_views[w] == e;
                                        assert(pre_views[w].txid != t2);
                                        assert(utxo_views(self.db.utxos@).contains(e));
                                    }
                                }
                            }
                        }
                    }
                }
                p += 1;
            }
            self.db.block_hashes.push(clone_bytes(&blocks[b].hash));
            b += 1;
        }
        core::mem::swap(&mut self.db.pending_transactions, &mut pendings);
    }
}

} // verus!
