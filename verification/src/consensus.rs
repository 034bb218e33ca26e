//! Round-consensus arithmetic: canonical sorting and medians for fee-rate and
//! block-height proposals, and the XOR fold that combines the peers'
//! randomness contributions into the beacon. The fold is proved invariant
//! under permutation, so every peer computes the same beacon whatever order
//! the proposals arrived in.
use vstd::prelude::*;

verus! {

/// Insert `x` into the already-sorted `s` after every entry less than or
/// equal to it.
pub open spec fn spec_insert_u64(s: Seq<u64>, x: u64) -> Seq<u64>
    decreases s.len(),
{
    if s.len() == 0 {
        seq![x]
    } else if s.last() > x {
        spec_insert_u64(s.drop_last(), x).push(s.last())
    } else {
        s.push(x)
    }
}

/// Ascending sort: the canonical order of a proposal list.
pub open spec fn spec_sort_u64(s: Seq<u64>) -> Seq<u64>
    decreases s.len(),
{
    if s.len() == 0 {
        Seq::empty()
    } else {
        spec_insert_u64(spec_sort_u64(s.drop_last()), s.last())
    }
}

/// The median a round agrees on: the middle entry of the sorted proposals.
pub open spec fn spec_median_u64(s: Seq<u64>) -> u64 {
    spec_sort_u64(s)[s.len() as int / 2]
}

proof fn lemma_insert_at_u64(s: Seq<u64>, x: u64, pos: int)
    requires
        0 <= pos <= s.len(),
        forall|m: int| pos <= m < s.len() ==> #[trigger] s[m] > x,
        pos > 0 ==> s[pos - 1] <= x,
    ensures
        spec_insert_u64(s, x) == s.subrange(0, pos).push(x) + s.subrange(pos, s.len() as int),
    decreases s.len(),
{
    if pos == s.len() {
        assert(spec_insert_u64(s, x) =~= s.push(x));
        assert(s.subrange(0, pos) =~= s);
        assert(s.push(x) =~= s.subrange(0, pos).push(x) + s.subrange(pos, s.len() as int));
    } else {
        assert(s[s.len() - 1] > x);
        lemma_insert_at_u64(s.drop_last(), x, pos);
        assert(s.drop_last() =~= s.subrange(0, s.len() - 1));
        assert(spec_insert_u64(s, x) == spec_insert_u64(s.drop_last(), x).push(s.last()));
        assert(spec_insert_u64(s, x) =~= s.subrange(0, pos).push(x) + s.subrange(pos, s.len() as int));
    }
}

/// Everything `spec_insert_u64` holds came from `s` or is `x`.
proof fn lemma_insert_from_u64(s: Seq<u64>, x: u64)
    ensures
        forall|k: int| 0 <= k < spec_insert_u64(s, x).len()
            ==> s.contains(#[trigger] spec_insert_u64(s, x)[k]) || spec_insert_u64(s, x)[k] == x,
    decreases s.len(),
{
    if s.len() == 0 {
    } else if s.last() > x {
        lemma_insert_from_u64(s.drop_last(), x);
        assert forall|k: int| 0 <= k < spec_insert_u64(s, x).len()
            implies s.contains(#[trigger] spec_insert_u64(s, x)[k]) || spec_insert_u64(s, x)[k] == x by {
            let r = spec_insert_u64(s, x);
            if k == r.len() - 1 {
                assert(s[s.len() - 1] == r[k]);
            } else {
                assert(spec_insert_u64(s.drop_last(), x)[k] == r[k]);
                if s.drop_last().contains(r[k]) {
                    let i = choose|i: int| 0 <= i < s.drop_last().len() && s.drop_last()[i] == r[k];
                    assert(s[i] == r[k]);
                }
            }
        }
    } else {
        assert forall|k: int| 0 <= k < spec_insert_u64(s, x).len()
            implies s.contains(#[trigger] spec_insert_u64(s, x)[k]) || spec_insert_u64(s, x)[k] == x by {
            if k < s.len() {
                assert(s[k] == spec_insert_u64(s, x)[k]);
            }
        }
    }
}

/// Everything in the sorted sequence came from the input; in particular the
/// median is one of the proposals.
pub proof fn lemma_sort_from_u64(s: Seq<u64>)
    ensures
        forall|k: int| 0 <= k < spec_sort_u64(s).len() ==> s.contains(#[trigger] spec_sort_u64(s)[k]),
        spec_sort_u64(s).len() == s.len(),
    decreases s.len(),
{
    if s.len() == 0 {
    } else {
        lemma_sort_from_u64(s.drop_last());
        lemma_insert_from_u64(spec_sort_u64(s.drop_last()), s.last());
        lemma_insert_len_u64(spec_sort_u64(s.drop_last()), s.last());
        assert forall|k: int| 0 <= k < spec_sort_u64(s).len()
            implies s.contains(#[trigger] spec_sort_u64(s)[k]) by {
            let x = spec_sort_u64(s)[k];
            if spec_sort_u64(s.drop_last()).contains(x) {
                assert(s.drop_last().contains(x));
                let j = choose|j: int| 0 <= j < s.drop_last().len() && s.drop_last()[j] == x;
                assert(s[j] == x);
            } else {
                assert(x == s.last());
                assert(s[s.len() - 1] == x);
            }
        }
    }
}

proof fn lemma_insert_len_u64(s: Seq<u64>, x: u64)
    ensures
        spec_insert_u64(s, x).len() == s.len() + 1,
    decreases s.len(),
{
    if s.len() == 0 {
    } else if s.last() > x {
        lemma_insert_len_u64(s.drop_last(), x);
    }
}

/// Insertion sort; the result is exactly the canonical ascending order.
#[verifier::loop_isolation(false)]
pub fn sort_u64s(values: Vec<u64>) -> (r: Vec<u64>)
    ensures
        r@ == spec_sort_u64(values@),
{
    let mut rest = values;
    let mut sorted: Vec<u64> = Vec::new();
    let ghost all = rest@;
    let n = rest.len();
    proof {
        assert(all.len() == n as int);
    }
    let mut taken: usize = 0;
    while rest.len() > 0
        invariant
            taken + rest@.len() == all.len(),
            rest@ == all.subrange(taken as int, all.len() as int),
            sorted@ == spec_sort_u64(all.subrange(0, taken as int)),
        decreases rest@.len(),
    {
        let x = rest.remove(0);
        assert(x == all[taken as int]);
        let ghost old_sorted = sorted@;
        let mut pos: usize = sorted.len();
        while pos > 0 && sorted[pos - 1] > x
            invariant
                pos <= sorted@.len(),
                sorted@ == old_sorted,
                forall|m: int| pos <= m < sorted@.len() ==> #[trigger] sorted@[m] > x,
            decreases pos,
        {
            pos -= 1;
        }
        sorted.insert(pos, x);
        proof {
            lemma_insert_at_u64(old_sorted, x, pos as int);
            assert(sorted@ =~= old_sorted.subrange(0, pos as int).push(x) + old_sorted.subrange(
                pos as int,
                old_sorted.len() as int,
            ));
            let next_prefix = all.subrange(0, taken as int + 1);
            assert(next_prefix.drop_last() =~= all.subrange(0, taken as int));
            assert(next_prefix.last() == x);
            assert(sorted@ == spec_sort_u64(next_prefix));
        }
        taken += 1;
        proof {
            assert(rest@ =~= all.subrange(taken as int, all.len() as int));
        }
    }
    proof {
        assert(all.subrange(0, taken as int) =~= all);
    }
    sorted
}

/// The middle entry of the canonically sorted proposals.
pub fn median_u64(proposals: Vec<u64>) -> (r: u64)
    requires
        proposals@.len() > 0,
    ensures
        r == spec_median_u64(proposals@),
        proposals@.contains(r),
{
    let ghost input = proposals@;
    let n = proposals.len();
    let sorted = sort_u64s(proposals);
    proof {
        lemma_sort_from_u64(input);
    }
    let r = sorted[n / 2];
    r
}

/// All-zero accumulator the randomness fold starts from.
pub open spec fn spec_zero32() -> Seq<u8> {
    Seq::new(32, |i: int| 0u8)
}

/// Byte-wise XOR of two 32-byte strings.
pub open spec fn spec_xor32(a: Seq<u8>, b: Seq<u8>) -> Seq<u8> {
    Seq::new(32, |i: int| a[i] ^ b[i])
}

/// Left fold of the contributions with XOR, starting from all zeros.
pub open spec fn spec_xor_fold(s: Seq<Seq<u8>>) -> Seq<u8>
    decreases s.len(),
{
    if s.len() == 0 {
        spec_zero32()
    } else {
        spec_xor32(spec_xor_fold(s.drop_last()), s.last())
    }
}

/// The views of a list of byte vectors.
pub open spec fn bytes_views(s: Seq<Vec<u8>>) -> Seq<Seq<u8>> {
    s.map_values(|v: Vec<u8>| v@)
}

proof fn lemma_xor32_comm(a: Seq<u8>, b: Seq<u8>)
    ensures
        spec_xor32(a, b) == spec_xor32(b, a),
{
    assert forall|i: int| 0 <= i < 32 implies spec_xor32(a, b)[i] == spec_xor32(b, a)[i] by {
        let x = a[i];
        let y = b[i];
        assert(x ^ y == y ^ x) by (bit_vector);
    }
    assert(spec_xor32(a, b) =~= spec_xor32(b, a));
}

proof fn lemma_xor32_shuffle(a: Seq<u8>, b: Seq<u8>, c: Seq<u8>)
    ensures
        spec_xor32(spec_xor32(a, b), c) == spec_xor32(spec_xor32(a, c), b),
{
    assert forall|i: int| 0 <= i < 32 implies spec_xor32(spec_xor32(a, b), c)[i] == spec_xor32(
        spec_xor32(a, c),
        b,
    )[i] by {
        let x = a[i];
        let y = b[i];
        let z = c[i];
        assert((x ^ y) ^ z == (x ^ z) ^ y) by (bit_vector);
    }
    assert(spec_xor32(spec_xor32(a, b), c) =~= spec_xor32(spec_xor32(a, c), b));
}

/// Folding equals folding without the entry at `i`, XORed with that entry.
proof fn lemma_xor_fold_pull(s: Seq<Seq<u8>>, i: int)
    requires
        0 <= i < s.len(),
    ensures
        spec_xor_fold(s) == spec_xor32(spec_xor_fold(s.remove(i)), s[i]),
    decreases s.len(),
{
    if i == s.len() - 1 {
        assert(s.remove(i) =~= s.drop_last());
    } else {
        let last = s.last();
        assert(s.remove(i).drop_last() =~= s.drop_last().remove(i));
        assert(s.remove(i).last() == last);
        lemma_xor_fold_pull(s.drop_last(), i);
        assert(spec_xor_fold(s) == spec_xor32(
            spec_xor32(spec_xor_fold(s.drop_last().remove(i)), s[i]),
            last,
        ));
        lemma_xor32_shuffle(spec_xor_fold(s.drop_last().remove(i)), s[i], last);
        assert(spec_xor_fold(s.remove(i)) == spec_xor32(spec_xor_fold(s.drop_last().remove(i)), last));
    }
}

/// The randomness beacon is invariant under permutation of the contributions:
/// two proposal lists with the same multiset of 32-byte contributions fold to
/// the same beacon.
pub proof fn lemma_xor_fold_permutation(s1: Seq<Seq<u8>>, s2: Seq<Seq<u8>>)
    requires
        s1.to_multiset() == s2.to_multiset(),
    ensures
        spec_xor_fold(s1) == spec_xor_fold(s2),
    decreases s1.len(),
{
    broadcast use vstd::seq_lib::group_to_multiset_ensures;

    assert(s1.len() == s1.to_multiset().len());
    assert(s2.len() == s2.to_multiset().len());
    if s1.len() == 0 {
        assert(s2.len() == 0);
    } else {
        let x = s1.last();
        assert(s1.contains(x));
        assert(s1.to_multiset().count(x) > 0);
        assert(s2.to_multiset().count(x) > 0);
        assert(s2.contains(x));
        let i = choose|i: int| 0 <= i < s2.len() && s2[i] == x;
        lemma_xor_fold_pull(s2, i);
        assert(s1.drop_last() =~= s1.remove(s1.len() - 1));
        assert(s1.drop_last().to_multiset() =~= s1.to_multiset().remove(x));
        assert(s2.remove(i).to_multiset() =~= s2.to_multiset().remove(x));
        lemma_xor_fold_permutation(s1.drop_last(), s2.remove(i));
    }
}

/// XOR-fold the 32-byte contributions, left to right, starting from zeros.
#[verifier::loop_isolation(false)]
pub fn xor_fold_contributions(randomness: &Vec<Vec<u8>>) -> (r: Vec<u8>)
    requires
        forall|i: int| 0 <= i < randomness@.len() ==> (#[trigger] randomness@[i])@.len() == 32,
    ensures
        r@ == spec_xor_fold(bytes_views(randomness@)),
        r@.len() == 32,
{
    let ghost views = bytes_views(randomness@);
    let mut acc: Vec<u8> = Vec::new();
    let mut z: usize = 0;
    while z < 32
        invariant
            z <= 32,
            acc@.len() == z,
            forall|m: int| 0 <= m < z ==> acc@[m] == 0u8,
        decreases 32 - z,
    {
        acc.push(0);
        z += 1;
    }
    proof {
        assert(acc@ =~= spec_zero32());
        assert(bytes_views(randomness@).subrange(0, 0) =~= Seq::<Seq<u8>>::empty());
    }
    let mut k: usize = 0;
    while k < randomness.len()
        invariant
            k <= randomness@.len(),
            acc@.len() == 32,
            acc@ == spec_xor_fold(views.subrange(0, k as int)),
        decreases randomness@.len() - k,
    {
        let item = &randomness[k];
        let ghost acc0 = acc@;
        let mut j: usize = 0;
        while j < 32
            invariant
                j <= 32,
                item@.len() == 32,
                acc@.len() == 32,
                forall|m: int| 0 <= m < j ==> acc@[m] == (acc0[m] ^ item@[m]),
                forall|m: int| j <= m < 32 ==> acc@[m] == acc0[m],
            decreases 32 - j,
        {
            let a = acc[j];
            let b = item[j];
            acc.set(j, a ^ b);
            j += 1;
        }
        proof {
            assert(acc@ =~= spec_xor32(acc0, item@));
            let next = views.subrange(0, k as int + 1);
            assert(next.drop_last() =~= views.subrange(0, k as int));
            assert(next.last() == views[k as int]);
            assert(views[k as int] == randomness@[k as int]@);
        }
        k += 1;
    }
    proof {
        assert(views.subrange(0, k as int) =~= views);
    }
    acc
}

} // verus!
