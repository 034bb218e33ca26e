//! The stateless peg-out transaction builder: selects UTXOs largest-first
//! over a canonical stable sort, recomputes fees as the weight grows, and
//! emits a two-output transaction `[destination, change]` whose signing
//! metadata carries the per-input tweaks and the change tweak.
//!
//! The selection model works on [`UtxoEntryV`] views, so that it depends only
//! on outpoints, tweaks and amounts, never on which copy of a buffer holds
//! them.
use vstd::prelude::*;

use crate::db::UtxoEntryV;
use crate::db::clone_bytes;
use crate::db::utxo_view;
use crate::db::utxo_views;
use crate::tweak::dust_value_of;
use crate::tweak::max_sat_weight_of;
use crate::tweak::tweaked_script_of;
use crate::tweak::derive_script_bytes;
use crate::tweak::descriptor_max_satisfaction_weight;
use crate::tweak::script_dust_value;
use crate::types::Feerate;
use crate::types::OutPoint;
use crate::types::PegOutFees;
use crate::types::Psbt;
use crate::types::PsbtInput;
use crate::types::SpendableUTXO;
use crate::types::TransactionData;
use crate::types::TxInput;
use crate::types::TxOutput;
use crate::types::UnsignedTransaction;
use crate::types::spec_fee;

verus! {

/// Weight of the two outputs: destination and change scripts at four weight
/// units per byte, a one-byte length prefix for the change script, and the
/// serialized amounts.
pub open spec fn spec_out_weight(dest_len: int, change_len: int) -> int {
    dest_len * 4 + 1 + 32 + 1 + change_len * 4 + 32
}

/// Base weight of the transaction before any input: version, input and output
/// counts, outputs, and lock time.
pub open spec fn spec_base_weight(dest_len: int, change_len: int) -> int {
    16 + 12 + 12 + spec_out_weight(dest_len, change_len) + 16
}

/// Weight each selected input adds: the descriptor's maximum satisfaction
/// weight plus outpoint and sequence.
pub open spec fn spec_input_weight(max_sat: int) -> int {
    max_sat + 128 + 16 + 16
}

/// Insert `u` into the already-sorted `s` after every entry whose amount is
/// less than or equal to `u`'s (the stable position).
pub open spec fn spec_insert_utxo(s: Seq<UtxoEntryV>, u: UtxoEntryV) -> Seq<UtxoEntryV>
    decreases s.len(),
{
    if s.len() == 0 {
        seq![u]
    } else if s.last().amount > u.amount {
        spec_insert_utxo(s.drop_last(), u).push(s.last())
    } else {
        s.push(u)
    }
}

/// Stable sort by amount, ascending: the canonical order every peer must use.
pub open spec fn spec_sort_utxos(s: Seq<UtxoEntryV>) -> Seq<UtxoEntryV>
    decreases s.len(),
{
    if s.len() == 0 {
        Seq::empty()
    } else {
        spec_insert_utxo(spec_sort_utxos(s.drop_last()), s.last())
    }
}

/// The selection recurrence: while the selected value does not cover
/// `need_base` plus the fee at the current weight, take the largest remaining
/// UTXO, add its amount and one input weight, and recompute the fee. `None`
/// when the UTXOs run out, or when the running value or weight would leave
/// `u64` (where the reference accumulators would overflow).
pub open spec fn spec_select(
    rem: Seq<UtxoEntryV>,
    sel: Seq<UtxoEntryV>,
    value: int,
    weight: int,
    need_base: int,
    rate: int,
    in_weight: int,
) -> Option<(Seq<UtxoEntryV>, int, int)>
    decreases rem.len(),
{
    if value >= need_base + spec_fee(rate, weight) {
        Some((sel, value, weight))
    } else if rem.len() == 0 {
        None
    } else {
        let u = rem.last();
        let value2 = value + u.amount;
        let weight2 = weight + in_weight;
        if value2 > u64::MAX || weight2 > u64::MAX {
            None
        } else {
            spec_select(rem.drop_last(), sel.push(u), value2, weight2, need_base, rate, in_weight)
        }
    }
}

/// Every entry of a successful selection came from the initial `sel` or `rem`.
proof fn lemma_select_from(
    rem: Seq<UtxoEntryV>,
    sel: Seq<UtxoEntryV>,
    value: int,
    weight: int,
    need_base: int,
    rate: int,
    in_weight: int,
)
    ensures
        spec_select(rem, sel, value, weight, need_base, rate, in_weight).is_some()
            ==> (forall|k: int|
                0 <= k < spec_select(rem, sel, value, weight, need_base, rate, in_weight).unwrap().0.len()
                    ==> sel.contains(
                        #[trigger] spec_select(rem, sel, value, weight, need_base, rate, in_weight).unwrap().0[k],
                    ) || rem.contains(
                        spec_select(rem, sel, value, weight, need_base, rate, in_weight).unwrap().0[k],
                    )),
    decreases rem.len(),
{
    if value >= need_base + spec_fee(rate, weight) {
    } else if rem.len() == 0 {
    } else {
        let u = rem.last();
        let value2 = value + u.amount;
        let weight2 = weight + in_weight;
        if value2 > u64::MAX || weight2 > u64::MAX {
        } else {
            lemma_select_from(rem.drop_last(), sel.push(u), value2, weight2, need_base, rate, in_weight);
            let r = spec_select(rem, sel, value, weight, need_base, rate, in_weight);
            if r.is_some() {
                assert forall|k: int| 0 <= k < r.unwrap().0.len()
                    implies sel.contains(#[trigger] r.unwrap().0[k]) || rem.contains(r.unwrap().0[k]) by {
                    let x = r.unwrap().0[k];
                    if sel.push(u).contains(x) {
                        let i = choose|i: int| 0 <= i < sel.push(u).len() && sel.push(u)[i] == x;
                        if i < sel.len() {
                            assert(sel[i] == x);
                        } else {
                            assert(x == u);
                            assert(rem[rem.len() - 1] == u);
                        }
                    } else {
                        assert(rem.drop_last().contains(x));
                        let i = choose|i: int| 0 <= i < rem.drop_last().len() && rem.drop_last()[i] == x;
                        assert(rem[i] == x);
                    }
                }
            }
        }
    }
}

/// Everything `spec_insert_utxo` holds came from `s` or is `u`.
proof fn lemma_insert_from(s: Seq<UtxoEntryV>, u: UtxoEntryV)
    ensures
        forall|k: int| 0 <= k < spec_insert_utxo(s, u).len()
            ==> s.contains(#[trigger] spec_insert_utxo(s, u)[k]) || spec_insert_utxo(s, u)[k] == u,
    decreases s.len(),
{
    if s.len() == 0 {
    } else if s.last().amount > u.amount {
        lemma_insert_from(s.drop_last(), u);
        assert forall|k: int| 0 <= k < spec_insert_utxo(s, u).len()
            implies s.contains(#[trigger] spec_insert_utxo(s, u)[k]) || spec_insert_utxo(s, u)[k] == u by {
            let r = spec_insert_utxo(s, u);
            let x = r[k];
            if k == r.len() - 1 {
                assert(x == s.last());
                assert(s[s.len() - 1] == x);
            } else {
                assert(spec_insert_utxo(s.drop_last(), u)[k] == x);
                if s.drop_last().contains(x) {
                    let i = choose|i: int| 0 <= i < s.drop_last().len() && s.drop_last()[i] == x;
                    assert(s[i] == x);
                }
            }
        }
    } else {
        assert forall|k: int| 0 <= k < spec_insert_utxo(s, u).len()
            implies s.contains(#[trigger] spec_insert_utxo(s, u)[k]) || spec_insert_utxo(s, u)[k] == u by {
            if k < s.len() {
                assert(s[k] == spec_insert_utxo(s, u)[k]);
            }
        }
    }
}

/// Everything in the sorted sequence came from the input.
proof fn lemma_sort_from(s: Seq<UtxoEntryV>)
    ensures
        forall|k: int| 0 <= k < spec_sort_utxos(s).len()
            ==> s.contains(#[trigger] spec_sort_utxos(s)[k]),
    decreases s.len(),
{
    if s.len() == 0 {
    } else {
        lemma_sort_from(s.drop_last());
        lemma_insert_from(spec_sort_utxos(s.drop_last()), s.last());
        assert forall|k: int| 0 <= k < spec_sort_utxos(s).len()
            implies s.contains(#[trigger] spec_sort_utxos(s)[k]) by {
            let x = spec_sort_utxos(s)[k];
            if spec_sort_utxos(s.drop_last()).contains(x) {
                let i = choose|i: int|
                    0 <= i < spec_sort_utxos(s.drop_last()).len() && spec_sort_utxos(s.drop_last())[i] == x;
                assert(s.drop_last().contains(x));
                let j = choose|j: int| 0 <= j < s.drop_last().len() && s.drop_last()[j] == x;
                assert(s[j] == x);
            } else {
                assert(x == s.last());
                assert(s[s.len() - 1] == x);
            }
        }
    }
}

/// `spec_insert_utxo` is insertion at the scanned position: if everything from
/// `pos` on is strictly heavier than `u` and the entry before `pos` (if any)
/// is not, the insertion splits the sequence at `pos`.
proof fn lemma_insert_at(s: Seq<UtxoEntryV>, u: UtxoEntryV, pos: int)
    requires
        0 <= pos <= s.len(),
        forall|m: int| pos <= m < s.len() ==> (#[trigger] s[m]).amount > u.amount,
        pos > 0 ==> s[pos - 1].amount <= u.amount,
    ensures
        spec_insert_utxo(s, u) == s.subrange(0, pos).push(u) + s.subrange(pos, s.len() as int),
    decreases s.len(),
{
    if pos == s.len() {
        assert(spec_insert_utxo(s, u) =~= s.push(u));
        assert(s.subrange(0, pos) =~= s);
        assert(s.push(u) =~= s.subrange(0, pos).push(u) + s.subrange(pos, s.len() as int));
    } else {
        assert(s[s.len() - 1].amount > u.amount);
        lemma_insert_at(s.drop_last(), u, pos);
        assert(s.drop_last() =~= s.subrange(0, s.len() - 1));
        assert(spec_insert_utxo(s, u) == spec_insert_utxo(s.drop_last(), u).push(s.last()));
        assert(spec_insert_utxo(s, u) =~= s.subrange(0, pos).push(u) + s.subrange(pos, s.len() as int));
    }
}

/// Stable insertion sort into a fresh vector; the view of the result is
/// exactly the canonical order of the input's view.
#[verifier::loop_isolation(false)]
pub fn sort_utxos(utxos: Vec<(OutPoint, SpendableUTXO)>) -> (r: Vec<(OutPoint, SpendableUTXO)>)
    ensures
        utxo_views(r@) == spec_sort_utxos(utxo_views(utxos@)),
{
    let mut rest = utxos;
    let mut sorted: Vec<(OutPoint, SpendableUTXO)> = Vec::new();
    let ghost all = rest@;
    let n = rest.len();
    proof {
        assert(all.len() == n as int);
    }
    let mut taken: usize = 0;
    while rest.len() > 0
        invariant
            taken + rest@.len() == all.len(),
            rest@ == all.subrange(taken as int, all.len() as int),
            utxo_views(sorted@) == spec_sort_utxos(utxo_views(all.subrange(0, taken as int))),
        decreases rest@.len(),
    {
        let u = rest.remove(0);
        assert(u == all[taken as int]);
        let ghost old_sorted = sorted@;
        let mut pos: usize = sorted.len();
        while pos > 0 && sorted[pos - 1].1.amount > u.1.amount
            invariant
                pos <= sorted@.len(),
                sorted@ == old_sorted,
                forall|m: int| pos <= m < sorted@.len() ==> (#[trigger] sorted@[m]).1.amount > u.1.amount,
            decreases pos,
        {
            pos -= 1;
        }
        sorted.insert(pos, u);
        proof {
            let sv = utxo_views(old_sorted);
            assert forall|m: int| pos as int <= m < sv.len() implies (#[trigger] sv[m]).amount
                > utxo_view(u).amount by {
                assert(sv[m] == utxo_view(old_sorted[m]));
            }
            if pos > 0 {
                assert(sv[pos - 1] == utxo_view(old_sorted[pos - 1]));
            }
            lemma_insert_at(sv, utxo_view(u), pos as int);
            assert(utxo_views(sorted@) =~= sv.subrange(0, pos as int).push(utxo_view(u)) + sv.subrange(
                pos as int,
                sv.len() as int,
            ));
            let next_prefix = all.subrange(0, taken as int + 1);
            assert(next_prefix.drop_last() =~= all.subrange(0, taken as int));
            assert(next_prefix.last() == u);
            assert(utxo_views(next_prefix).drop_last() =~= utxo_views(next_prefix.drop_last()));
            assert(utxo_views(next_prefix).last() == utxo_view(u));
            assert(utxo_views(sorted@) == spec_sort_utxos(utxo_views(next_prefix)));
        }
        taken += 1;
        proof {
            assert(rest@ =~= all.subrange(taken as int, all.len() as int));
        }
    }
    proof {
        assert(all.subrange(0, taken as int) =~= all);
    }
    sorted
}

/// The fee at the given rate and weight, computed without truncation.
fn fee_amount_u128(rate: u64, weight: u64) -> (r: u128)
    ensures
        r == spec_fee(rate as int, weight as int),
        r <= 0xFFFFFFFFFFFFFFFFu128 * 0xFFFFFFFFFFFFFFFFu128,
{
    proof {
        assert((rate as int) * (weight as int) <= 0xFFFFFFFFFFFFFFFFi128 * 0xFFFFFFFFFFFFFFFFi128)
            by (nonlinear_arith)
            requires
                0 <= rate as int <= 0xFFFFFFFFFFFFFFFFi128,
                0 <= weight as int <= 0xFFFFFFFFFFFFFFFFi128,
        ;
    }
    (rate as u128) * (weight as u128) / 1000
}

/// Whether the builder succeeds: the descriptor resolves (its satisfaction
/// weight and the change and every selected input's script derive), the
/// base weight and the per-input weight fit `u64`, and the selection
/// recurrence succeeds.
pub open spec fn spec_create_tx_ok(
    descriptor: Seq<char>,
    amount: u64,
    destination: Seq<u8>,
    utxos: Seq<UtxoEntryV>,
    fee_rate: Feerate,
    change_tweak: Seq<u8>,
) -> bool {
    &&& max_sat_weight_of(descriptor).is_some()
    &&& tweaked_script_of(descriptor, change_tweak).is_some()
    &&& spec_base_weight(
        destination.len() as int,
        tweaked_script_of(descriptor, change_tweak).unwrap().len() as int,
    ) <= u64::MAX
    &&& (spec_selection(descriptor, amount, destination, utxos, fee_rate, change_tweak)
        matches Some((sel, value, weight)) ==> (forall|i: int| 0 <= i < sel.len()
            ==> tweaked_script_of(descriptor, (#[trigger] sel[i]).tweak).is_some()))
    &&& spec_selection(descriptor, amount, destination, utxos, fee_rate, change_tweak).is_some()
    &&& spec_input_weight(max_sat_weight_of(descriptor).unwrap()) <= u64::MAX
}

/// The selection the builder commits to, over the canonically sorted views.
pub open spec fn spec_selection(
    descriptor: Seq<char>,
    amount: u64,
    destination: Seq<u8>,
    utxos: Seq<UtxoEntryV>,
    fee_rate: Feerate,
    change_tweak: Seq<u8>,
) -> Option<(Seq<UtxoEntryV>, int, int)> {
    spec_select(
        spec_sort_utxos(utxos),
        Seq::empty(),
        0,
        spec_base_weight(
            destination.len() as int,
            tweaked_script_of(descriptor, change_tweak).unwrap().len() as int,
        ),
        amount + dust_value_of(tweaked_script_of(descriptor, change_tweak).unwrap()),
        fee_rate.sats_per_kvb as int,
        spec_input_weight(max_sat_weight_of(descriptor).unwrap()),
    )
}

/// The stateless wallet: the federation descriptor every script is derived
/// from.
pub struct StatelessWallet {
    pub descriptor: String,
}

impl StatelessWallet {
    /// Derive the script paying to the federation key tweaked with `tweak`.
    /// Deterministic: equal tweaks give equal scripts.
    pub fn derive_script(&self, tweak: &Vec<u8>) -> (r: Option<Vec<u8>>)
        ensures
            r.is_some() == tweaked_script_of(self.descriptor@, tweak@).is_some(),
            r.is_some() ==> r.unwrap()@ == tweaked_script_of(self.descriptor@, tweak@).unwrap(),
    {
        derive_script_bytes(&self.descriptor, tweak)
    }

    /// Attempts to create a transaction ready to be signed from the available
    /// UTXOs. Returns `None` if there are not enough spendable UTXOs (or the
    /// descriptor does not resolve, or an accumulator would leave `u64`).
    ///
    /// On success, with `(sel, value, weight)` the result of the selection
    /// recurrence over the canonically sorted UTXO views: the inputs spend
    /// exactly `sel` in selection order; `fees` is the fee at `fee_rate` for
    /// the final `weight`; the outputs are `[destination, change]` with
    /// `value == amount + fees + change` exactly; every input's signing
    /// metadata carries the spent UTXO's tweak and its derived script, and the
    /// change tweak is annotated on the change output.
    #[verifier::loop_isolation(false)]
    #[verifier::rlimit(100)]
    pub fn create_tx(
        &self,
        peg_out_amount: u64,
        destination: Vec<u8>,
        utxos: Vec<(OutPoint, SpendableUTXO)>,
        fee_rate: Feerate,
        change_tweak: &Vec<u8>,
    ) -> (r: Option<UnsignedTransaction>)
        requires
            forall|i: int| 0 <= i < utxos@.len() ==> (#[trigger] utxos@[i]).0.txid@.len() == 32,
        ensures
            r.is_some() == spec_create_tx_ok(
                self.descriptor@,
                peg_out_amount,
                destination@,
                utxo_views(utxos@),
                fee_rate,
                change_tweak@,
            ),
            r.is_some() ==> crate::tweak::tx_prevouts_wf(r.unwrap().psbt.unsigned_tx),
            r.is_some() ==> ({
                let change_script = tweaked_script_of(self.descriptor@, change_tweak@).unwrap();
                let (sel, value, weight) = spec_selection(
                    self.descriptor@,
                    peg_out_amount,
                    destination@,
                    utxo_views(utxos@),
                    fee_rate,
                    change_tweak@,
                ).unwrap();
                let tx = r.unwrap();
                let fees = spec_fee(fee_rate.sats_per_kvb as int, weight);
                &&& tx.fees == (PegOutFees { fee_rate, total_weight: weight as u64 })
                &&& tx.change == value - fees - peg_out_amount
                &&& value == peg_out_amount + fees + tx.change
                &&& tx.nonces@.len() == 0
                &&& tx.signatures@.len() == 0
                &&& tx.psbt.unsigned_tx.version == 2
                &&& tx.psbt.unsigned_tx.lock_time == 0
                &&& tx.psbt.unsigned_tx.output@.len() == 2
                &&& tx.psbt.unsigned_tx.output@[0].value == peg_out_amount
                &&& tx.psbt.unsigned_tx.output@[0].script_pubkey@ == destination@
                &&& tx.psbt.unsigned_tx.output@[1].value == tx.change
                &&& tx.psbt.unsigned_tx.output@[1].script_pubkey@ == change_script
                &&& tx.psbt.change_tweak@ == change_tweak@
                &&& tx.psbt.unsigned_tx.input@.len() == sel.len()
                &&& tx.psbt.inputs@.len() == sel.len()
                &&& (forall|i: int| 0 <= i < sel.len() ==> {
                    &&& (#[trigger] tx.psbt.unsigned_tx.input@[i]).previous_output.txid@ == sel[i].txid
                    &&& tx.psbt.unsigned_tx.input@[i].previous_output.vout == sel[i].vout
                    &&& tx.psbt.unsigned_tx.input@[i].sequence == 0xFFFFFFFFu32
                    &&& tx.psbt.unsigned_tx.input@[i].witness@.len() == 0
                    &&& tx.psbt.inputs@[i].tweak@ == sel[i].tweak
                    &&& tx.psbt.inputs@[i].witness_utxo.value == sel[i].amount
                    &&& tx.psbt.inputs@[i].witness_utxo.script_pubkey@ == tweaked_script_of(
                        self.descriptor@,
                        sel[i].tweak,
                    ).unwrap()
                })
            }),
    {
        let ghost uviews = utxo_views(utxos@);
        proof {
            assert forall|i: int| 0 <= i < uviews.len() implies (#[trigger] uviews[i]).txid.len()
                == 32 by {
                assert(uviews[i] == utxo_view(utxos@[i]));
            }
        }
        let change_script = match self.derive_script(change_tweak) {
            Some(s) => s,
            None => {
                return None;
            },
        };
        let max_sat = match descriptor_max_satisfaction_weight(&self.descriptor) {
            Some(w) => w,
            None => {
                return None;
            },
        };
        let max_input_weight: u64 = match max_sat.checked_add(160) {
            Some(w) => w,
            None => {
                return None;
            },
        };
        // base weight: version + counts + outputs + lock time
        let dest_len = destination.len();
        let change_len = change_script.len();
        let out_weight: u128 = (dest_len as u128) * 4 + 1 + 32 + 1 + (change_len as u128) * 4 + 32;
        let base_weight: u128 = 16 + 12 + 12 + out_weight + 16;
        if base_weight > u64::MAX as u128 {
            return None;
        }
        let dust: u64 = script_dust_value(&change_script);

        let ghost need_base = peg_out_amount + dust_value_of(change_script@);
        let ghost rate = fee_rate.sats_per_kvb as int;
        let ghost in_weight = spec_input_weight(max_sat_weight_of(self.descriptor@).unwrap());

        let ghost base = base_weight as int;
        proof {
            let change_script_spec = tweaked_script_of(self.descriptor@, change_tweak@).unwrap();
            assert(change_script@ == change_script_spec);
            assert(base == spec_base_weight(destination@.len() as int, change_script_spec.len() as int));
            assert(need_base == peg_out_amount + dust_value_of(change_script_spec));
            assert(in_weight == max_input_weight);
        }
        let mut rem = sort_utxos(utxos);
        let ghost sorted = utxo_views(rem@);
        proof {
            assert(sorted == spec_sort_utxos(uviews));
        }
        let mut sel: Vec<(OutPoint, SpendableUTXO)> = Vec::new();
        let mut value: u64 = 0;
        let mut weight: u64 = base_weight as u64;
        proof {
            assert(utxo_views(sel@) =~= Seq::<UtxoEntryV>::empty());
        }

        let mut finished: bool = false;
        while !finished
            invariant
                spec_select(utxo_views(rem@), utxo_views(sel@), value as int, weight as int, need_base, rate, in_weight)
                    == spec_select(sorted, Seq::empty(), 0, base, need_base, rate, in_weight),
                finished ==> value as int >= need_base + spec_fee(rate, weight as int),
                finished ==> spec_select(sorted, Seq::empty(), 0, base, need_base, rate, in_weight)
                    == Some((utxo_views(sel@), value as int, weight as int)),
            decreases rem@.len() + (if finished { 0int } else { 1int }),
        {
            let fees: u128 = fee_amount_u128(fee_rate.sats_per_kvb, weight);
            if (value as u128) >= (peg_out_amount as u128) + (dust as u128) + fees {
                proof {
                    assert(value as int >= need_base + spec_fee(rate, weight as int));
                    assert(spec_select(utxo_views(rem@), utxo_views(sel@), value as int, weight as int, need_base, rate, in_weight)
                        == Some((utxo_views(sel@), value as int, weight as int)));
                }
                finished = true;
                continue;
            }
            let ghost rem0 = utxo_views(rem@);
            let ghost sel0 = utxo_views(sel@);
            let ghost value0 = value as int;
            let ghost weight0 = weight as int;
            proof {
                assert(value0 < need_base + spec_fee(rate, weight0));
            }
            let u = match rem.pop() {
                Some(u) => u,
                None => {
                    proof {
                        assert(spec_select(rem0, sel0, value0, weight0, need_base, rate, in_weight).is_none());
                    }
                    return None;
                },
            };
            proof {
                assert(utxo_views(rem@) =~= rem0.drop_last());
                assert(utxo_view(u) == rem0.last());
            }
            let value2 = match value.checked_add(u.1.amount) {
                Some(v) => v,
                None => {
                    proof {
                        assert(spec_select(rem0, sel0, value0, weight0, need_base, rate, in_weight).is_none());
                    }
                    return None;
                },
            };
            let weight2 = match weight.checked_add(max_input_weight) {
                Some(w) => w,
                None => {
                    proof {
                        assert(spec_select(rem0, sel0, value0, weight0, need_base, rate, in_weight).is_none());
                    }
                    return None;
                },
            };
            value = value2;
            weight = weight2;
            sel.push(u);
            proof {
                assert(utxo_views(sel@) =~= sel0.push(utxo_view(u)));
                assert(spec_select(rem0, sel0, value0, weight0, need_base, rate, in_weight)
                    == spec_select(utxo_views(rem@), utxo_views(sel@), value as int, weight as int, need_base, rate, in_weight));
            }
        }

        // the selection succeeded: value >= amount + dust + fee(weight)
        let fees128: u128 = fee_amount_u128(fee_rate.sats_per_kvb, weight);
        proof {
            assert(fees128 <= value as u128);
        }
        let fees: u64 = fees128 as u64;
        let change: u64 = value - fees - peg_out_amount;

        let ghost sel_views = utxo_views(sel@);
        proof {
            lemma_select_from(sorted, Seq::empty(), 0, base, need_base, rate, in_weight);
            lemma_sort_from(uviews);
            assert forall|k: int| 0 <= k < sel_views.len() implies (#[trigger] sel_views[k]).txid.len()
                == 32 by {
                assert(sorted.contains(sel_views[k]));
                let i = choose|i: int| 0 <= i < sorted.len() && sorted[i] == sel_views[k];
                assert(uviews.contains(sorted[i]));
                let j = choose|j: int| 0 <= j < uviews.len() && uviews[j] == sel_views[k];
                assert(uviews[j].txid.len() == 32);
            }
        }

        // build inputs in selection order, deriving each input's script
        let mut inputs: Vec<TxInput> = Vec::new();
        let mut psbt_inputs: Vec<PsbtInput> = Vec::new();
        let mut selrest = sel;
        let sn = selrest.len();
        proof {
            assert(sel_views.len() == sn as int);
        }
        let mut done: usize = 0;
        while selrest.len() > 0
            invariant
                done + selrest@.len() == sel_views.len(),
                utxo_views(selrest@) == sel_views.subrange(done as int, sel_views.len() as int),
                inputs@.len() == done,
                psbt_inputs@.len() == done,
                forall|i: int| 0 <= i < done ==> (#[trigger] inputs@[i]).previous_output.txid@
                    == sel_views[i].txid,
                forall|i: int| 0 <= i < done ==> (#[trigger] inputs@[i]).previous_output.vout
                    == sel_views[i].vout,
                forall|i: int| 0 <= i < done ==> (#[trigger] inputs@[i]).sequence == 0xFFFFFFFFu32,
                forall|i: int| 0 <= i < done ==> (#[trigger] inputs@[i]).witness@.len() == 0,
                forall|i: int| 0 <= i < done ==> (#[trigger] psbt_inputs@[i]).tweak@
                    == sel_views[i].tweak,
                forall|i: int| 0 <= i < done ==> (#[trigger] psbt_inputs@[i]).witness_utxo.value
                    == sel_views[i].amount,
                forall|i: int| 0 <= i < done ==> (#[trigger] psbt_inputs@[i]).witness_utxo.script_pubkey@
                    == tweaked_script_of(self.descriptor@, sel_views[i].tweak).unwrap(),
                forall|i: int| 0 <= i < done
                    ==> tweaked_script_of(self.descriptor@, (#[trigger] sel_views[i]).tweak).is_some(),
            decreases selrest@.len(),
        {
            let ghost selrest0 = utxo_views(selrest@);
            let u = selrest.remove(0);
            proof {
                assert(utxo_view(u) == selrest0[0]);
                assert(selrest0[0] == sel_views[done as int]);
                assert(utxo_views(selrest@) =~= selrest0.subrange(1, selrest0.len() as int));
                assert(utxo_views(selrest@) =~= sel_views.subrange(done as int + 1, sel_views.len() as int));
            }
            let script = match self.derive_script(&u.1.tweak) {
                Some(s) => s,
                None => {
                    return None;
                },
            };
            inputs.push(TxInput {
                previous_output: u.0,
                sequence: 0xFFFFFFFF,
                witness: Vec::new(),
            });
            psbt_inputs.push(PsbtInput {
                witness_utxo: TxOutput { value: u.1.amount, script_pubkey: script },
                tweak: u.1.tweak,
            });
            proof {
                let e = sel_views[done as int];
                assert(utxo_view(u) == e);
                assert(inputs@[done as int].previous_output.txid@ == e.txid);
                assert(inputs@[done as int].previous_output.vout == e.vout);
                assert(psbt_inputs@[done as int].tweak@ == e.tweak);
                assert(psbt_inputs@[done as int].witness_utxo.value == e.amount);
                assert(psbt_inputs@[done as int].witness_utxo.script_pubkey@ == tweaked_script_of(
                    self.descriptor@,
                    e.tweak,
                ).unwrap());
            }
            done += 1;
        }
        proof {
            assert(sel_views.subrange(0, done as int) =~= sel_views);
        }

        let mut output: Vec<TxOutput> = Vec::new();
        output.push(TxOutput { value: peg_out_amount, script_pubkey: destination });
        output.push(TxOutput { value: change, script_pubkey: change_script });

        let change_tweak_copy = clone_bytes(change_tweak);

        Some(UnsignedTransaction {
            psbt: Psbt {
                unsigned_tx: TransactionData { version: 2, lock_time: 0, input: inputs, output },
                inputs: psbt_inputs,
                change_tweak: change_tweak_copy,
            },
            nonces: Vec::new(),
            signatures: Vec::new(),
            change,
            fees: PegOutFees { fee_rate, total_weight: weight },
        })
    }
}

} // verus!
