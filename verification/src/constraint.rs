//! Semantics of the shuffle constraint.
//!
//! For a shuffle argument over a table, every row contributes a masked pair
//! to each side: the row's value pair where the side's selector is enabled,
//! the zero pair where it is disabled. The constraint holds exactly when
//! every enabled witness cell is known and the two masked streams are equal
//! as multisets, independent of row order.

use vstd::prelude::*;
use vstd::seq_lib::group_to_multiset_ensures;
use vstd::multiset::group_multiset_axioms;
use vstd::multiset::Multiset;
use crate::FieldElem;
use crate::circuit::ConstraintSystem;
use crate::circuit::ShuffleArgument;
use crate::table::Table;
use crate::table::WitnessValue;

verus! {

broadcast use group_to_multiset_ensures, group_multiset_axioms;

/// A value pair: one row's contribution to one side of the shuffle.
pub type Pair = (FieldElem, FieldElem);

/// The pair a disabled row contributes to either side.
pub open spec fn zero_pair() -> Pair {
    (0u64, 0u64)
}

/// Whether the argument's handles address columns the table actually has.
pub open spec fn arg_fits(arg: ShuffleArgument, t: Table) -> bool {
    &&& arg.input_0.index < t.advice@.len()
    &&& arg.shuffle_0.index < t.advice@.len()
    &&& arg.shuffle_1.index < t.advice@.len()
    &&& arg.input_1.index < t.fixed@.len()
    &&& arg.s_input.index < t.selectors@.len()
    &&& arg.s_shuffle.index < t.selectors@.len()
}

/// The left (input) side's masked pair at a row.
pub open spec fn left_pair_at(arg: ShuffleArgument, t: Table, i: int) -> Pair {
    if t.selector_at(arg.s_input, i) {
        (t.advice_at(arg.input_0, i).value(), t.fixed_at(arg.input_1, i))
    } else {
        zero_pair()
    }
}

/// The right (shuffle) side's masked pair at a row.
pub open spec fn right_pair_at(arg: ShuffleArgument, t: Table, i: int) -> Pair {
    if t.selector_at(arg.s_shuffle, i) {
        (t.advice_at(arg.shuffle_0, i).value(), t.advice_at(arg.shuffle_1, i).value())
    } else {
        zero_pair()
    }
}

/// The left masked stream over all rows of the table.
pub open spec fn left_stream(arg: ShuffleArgument, t: Table) -> Seq<Pair> {
    Seq::new(t.capacity as nat, |i: int| left_pair_at(arg, t, i))
}

/// The right masked stream over all rows of the table.
pub open spec fn right_stream(arg: ShuffleArgument, t: Table) -> Seq<Pair> {
    Seq::new(t.capacity as nat, |i: int| right_pair_at(arg, t, i))
}

/// Every enabled left witness cell carries a concrete value.
pub open spec fn left_known(arg: ShuffleArgument, t: Table) -> bool {
    forall|i: int|
        0 <= i < t.capacity && t.selector_at(arg.s_input, i) ==> (#[trigger] t.advice_at(
            arg.input_0,
            i,
        )).is_known()
}

/// Every enabled right witness cell carries a concrete value.
pub open spec fn right_known(arg: ShuffleArgument, t: Table) -> bool {
    forall|i: int|
        0 <= i < t.capacity && t.selector_at(arg.s_shuffle, i) ==> (#[trigger] t.advice_at(
            arg.shuffle_0,
            i,
        )).is_known() && t.advice_at(arg.shuffle_1, i).is_known()
}

/// The shuffle constraint: enabled cells known, and the two masked streams
/// equal as multisets.
pub open spec fn shuffle_holds(arg: ShuffleArgument, t: Table) -> bool {
    &&& left_known(arg, t)
    &&& right_known(arg, t)
    &&& left_stream(arg, t).to_multiset() == right_stream(arg, t).to_multiset()
}

/// Every shuffle argument the shape registered holds on the table.
pub open spec fn all_shuffles_hold(cs: ConstraintSystem, t: Table) -> bool {
    forall|k: int|
        0 <= k < cs.shuffles@.len() ==> shuffle_holds(#[trigger] cs.shuffles@[k], t)
}

/// How often a pair occurs in a sequence.
pub open spec fn pair_count(s: Seq<Pair>, x: Pair) -> nat
    decreases s.len(),
{
    if s.len() == 0 {
        0
    } else {
        pair_count(s.drop_last(), x) + if s.last() == x {
            1nat
        } else {
            0nat
        }
    }
}

/// Occurrence counting agrees with the multiset view of a sequence.
pub proof fn lemma_pair_count_is_multiset_count(s: Seq<Pair>, x: Pair)
    ensures
        pair_count(s, x) == s.to_multiset().count(x),
    decreases s.len(),
{
    if s.len() == 0 {
        assert(s.to_multiset() =~= Multiset::<Pair>::empty());
    } else {
        lemma_pair_count_is_multiset_count(s.drop_last(), x);
        assert(s =~= s.drop_last().push(s.last()));
        assert(s.drop_last().push(s.last()).to_multiset() =~= s.drop_last().to_multiset().insert(
            s.last(),
        ));
    }
}

/// Two sequences are multiset-equal exactly when every pair occurs equally
/// often in both.
pub proof fn lemma_multiset_eq_by_counts(a: Seq<Pair>, b: Seq<Pair>)
    requires
        forall|x: Pair| #[trigger] pair_count(a, x) == pair_count(b, x),
    ensures
        a.to_multiset() == b.to_multiset(),
{
    assert forall|x: Pair| a.to_multiset().count(x) == b.to_multiset().count(x) by {
        lemma_pair_count_is_multiset_count(a, x);
        lemma_pair_count_is_multiset_count(b, x);
    }
    assert(a.to_multiset() =~= b.to_multiset());
}

/// Some index below `n` maps to `v` under `perm`.
pub open spec fn appears(perm: Seq<int>, n: nat, v: int) -> bool {
    exists|i: int| 0 <= i < n && #[trigger] perm[i] == v
}

/// A permutation of the row indices `0 .. n`.
pub open spec fn is_permutation(perm: Seq<int>, n: nat) -> bool {
    &&& perm.len() == n
    &&& forall|i: int| 0 <= i < n ==> 0 <= #[trigger] perm[i] < n
    &&& forall|i: int, j: int| 0 <= i < j < n ==> perm[i] != perm[j]
    &&& forall|v: int| 0 <= v < n ==> #[trigger] appears(perm, n, v)
}

/// Completeness core: reordering a pair sequence by any permutation of its
/// indices leaves its multiset unchanged, so a right side built this way
/// always satisfies the shuffle relation.
pub proof fn lemma_reorder_same_multiset(left: Seq<Pair>, right: Seq<Pair>, perm: Seq<int>)
    requires
        is_permutation(perm, left.len()),
        right.len() == left.len(),
        forall|i: int| 0 <= i < right.len() ==> #[trigger] right[i] == left[perm[i]],
    ensures
        left.to_multiset() == right.to_multiset(),
    decreases left.len(),
{
    let n = left.len();
    if n == 0 {
        assert(left =~= right);
    } else {
        assert(appears(perm, n, n - 1));
        let k = choose|k: int| 0 <= k < n && #[trigger] perm[k] == n - 1;
        let left2 = left.drop_last();
        let right2 = right.remove(k);
        let perm2 = perm.remove(k);
        assert forall|i: int| 0 <= i < n - 1 implies 0 <= #[trigger] perm2[i] < n - 1 by {
            if i < k {
                assert(perm2[i] == perm[i]);
                assert(perm[i] != perm[k]);
            } else {
                assert(perm2[i] == perm[i + 1]);
                assert(perm[i + 1] != perm[k]);
            }
        }
        assert forall|i: int, j: int| 0 <= i < j < n - 1 implies perm2[i] != perm2[j] by {
            if j < k {
                assert(perm2[i] == perm[i] && perm2[j] == perm[j]);
            } else if i < k {
                assert(perm2[i] == perm[i] && perm2[j] == perm[j + 1]);
            } else {
                assert(perm2[i] == perm[i + 1] && perm2[j] == perm[j + 1]);
            }
        }
        assert forall|v: int| 0 <= v < n - 1 implies #[trigger] appears(
            perm2,
            (n - 1) as nat,
            v,
        ) by {
            assert(appears(perm, n, v));
            let i0 = choose|i0: int| 0 <= i0 < n && #[trigger] perm[i0] == v;
            if i0 < k {
                assert(perm2[i0] == v);
            } else {
                assert(i0 != k);
                assert(perm2[i0 - 1] == perm[i0] == v);
            }
        }
        assert(is_permutation(perm2, (n - 1) as nat));
        assert forall|i: int| 0 <= i < right2.len() implies #[trigger] right2[i]
            == left2[perm2[i]] by {
            if i < k {
                assert(right2[i] == right[i]);
                assert(perm2[i] == perm[i]);
            } else {
                assert(right2[i] == right[i + 1]);
                assert(perm2[i] == perm[i + 1]);
            }
            assert(left2[perm2[i]] == left[perm2[i]]);
        }
        lemma_reorder_same_multiset(left2, right2, perm2);
        assert(right2.to_multiset() =~= right.to_multiset().remove(right[k]));
        assert(right[k] == left[n - 1]);
        assert(left2.push(left[n - 1]) =~= left);
        assert(left.to_multiset() =~= left2.to_multiset().insert(left[n - 1]));
        assert(right.to_multiset().count(right[k]) > 0) by {
            lemma_pair_count_is_multiset_count(right, right[k]);
            lemma_count_positive_of_member(right, k);
        }
        assert(left.to_multiset() =~= right.to_multiset());
    }
}

/// A pair standing at some index of a sequence occurs at least once in it.
pub proof fn lemma_count_positive_of_member(s: Seq<Pair>, i: int)
    requires
        0 <= i < s.len(),
    ensures
        pair_count(s, s[i]) > 0,
    decreases s.len(),
{
    if i == s.len() - 1 {
        assert(s.last() == s[i]);
    } else {
        lemma_count_positive_of_member(s.drop_last(), i);
        assert(s.drop_last()[i] == s[i]);
    }
}

/// Soundness core: a pair occurring more often on the left than on the
/// right keeps the two multisets apart.
pub proof fn lemma_missing_pair_breaks(left: Seq<Pair>, right: Seq<Pair>, p: Pair)
    requires
        pair_count(right, p) < pair_count(left, p),
    ensures
        left.to_multiset() != right.to_multiset(),
{
    lemma_pair_count_is_multiset_count(left, p);
    lemma_pair_count_is_multiset_count(right, p);
}

/// The all-zero padding that a side's disabled rows contribute.
pub open spec fn zero_pad(n: nat) -> Seq<Pair> {
    Seq::new(n, |i: int| zero_pair())
}

/// How often a pair occurs in the padding: `n` times for the zero pair,
/// never otherwise.
pub proof fn lemma_zero_pad_count(n: nat, p: Pair)
    ensures
        pair_count(zero_pad(n), p) == if p == zero_pair() {
            n
        } else {
            0nat
        },
    decreases n,
{
    if n > 0 {
        lemma_zero_pad_count((n - 1) as nat, p);
        assert(zero_pad(n).drop_last() =~= zero_pad((n - 1) as nat));
        assert(zero_pad(n).last() == zero_pair());
    }
}

/// Occurrence counts add over concatenation.
pub proof fn lemma_pair_count_add(a: Seq<Pair>, b: Seq<Pair>, p: Pair)
    ensures
        pair_count(a + b, p) == pair_count(a, p) + pair_count(b, p),
    decreases b.len(),
{
    if b.len() == 0 {
        assert(a + b =~= a);
    } else {
        lemma_pair_count_add(a, b.drop_last(), p);
        assert((a + b).drop_last() =~= a + b.drop_last());
        assert((a + b).last() == b.last());
    }
}

/// A pair sequence padded with the zero pair up to the table's capacity:
/// what one side's masked stream amounts to when its selector is enabled on
/// exactly as many leading region rows as it has pairs.
pub open spec fn padded(pairs: Seq<Pair>, cap: nat) -> Seq<Pair>
    recommends
        pairs.len() <= cap,
{
    pairs + zero_pad((cap - pairs.len()) as nat)
}

/// Occurrence count in a padded stream: the pair's own count, plus the
/// padding for the zero pair.
pub proof fn lemma_padded_count(pairs: Seq<Pair>, cap: nat, p: Pair)
    requires
        pairs.len() <= cap,
    ensures
        pair_count(padded(pairs, cap), p) == pair_count(pairs, p) + if p == zero_pair() {
            (cap - pairs.len()) as nat
        } else {
            0nat
        },
{
    lemma_pair_count_add(pairs, zero_pad((cap - pairs.len()) as nat), p);
    lemma_zero_pad_count((cap - pairs.len()) as nat, p);
}

/// Padding preserves equality: multiset-equal pair sequences stay
/// multiset-equal once both are padded with the zero pair to the same
/// capacity, since equal multisets have equal lengths and so equal padding.
pub proof fn lemma_padded_eq_of_pairs_eq(lp: Seq<Pair>, rp: Seq<Pair>, cap: nat)
    requires
        lp.len() <= cap,
        rp.len() <= cap,
        lp.to_multiset() == rp.to_multiset(),
    ensures
        padded(lp, cap).to_multiset() == padded(rp, cap).to_multiset(),
{
    assert(lp.len() == rp.len()) by {
        assert(lp.len() == lp.to_multiset().len());
        assert(rp.len() == rp.to_multiset().len());
    }
    assert forall|x: Pair|
        #[trigger] pair_count(padded(lp, cap), x) == pair_count(padded(rp, cap), x) by {
        lemma_padded_count(lp, cap, x);
        lemma_padded_count(rp, cap, x);
        lemma_pair_count_is_multiset_count(lp, x);
        lemma_pair_count_is_multiset_count(rp, x);
    }
    lemma_multiset_eq_by_counts(padded(lp, cap), padded(rp, cap));
}

/// The reverse direction of padding cancellation for equally long sides:
/// multiset-equal padded streams force multiset-equal pair sequences.
pub proof fn lemma_pairs_eq_of_padded_eq(lp: Seq<Pair>, rp: Seq<Pair>, cap: nat)
    requires
        lp.len() <= cap,
        rp.len() <= cap,
        lp.len() == rp.len(),
        padded(lp, cap).to_multiset() == padded(rp, cap).to_multiset(),
    ensures
        lp.to_multiset() == rp.to_multiset(),
{
    assert forall|x: Pair| #[trigger] pair_count(lp, x) == pair_count(rp, x) by {
        lemma_padded_count(lp, cap, x);
        lemma_padded_count(rp, cap, x);
        lemma_pair_count_is_multiset_count(padded(lp, cap), x);
        lemma_pair_count_is_multiset_count(padded(rp, cap), x);
    }
    lemma_multiset_eq_by_counts(lp, rp);
}

/// Count how often a pair occurs in a vector of pairs.
pub fn count_pair(v: &Vec<Pair>, x: Pair) -> (r: usize)
    ensures
        r == pair_count(v@, x),
{
    let mut r: usize = 0;
    let mut i: usize = 0;
    while i < v.len()
        invariant
            i <= v@.len(),
            r == pair_count(v@.subrange(0, i as int), x),
            r <= i,
        decreases v@.len() - i,
    {
        proof {
            assert(v@.subrange(0, i + 1).drop_last() =~= v@.subrange(0, i as int));
            assert(v@.subrange(0, i + 1).last() == v@[i as int]);
        }
        if v[i].0 == x.0 && v[i].1 == x.1 {
            r = r + 1;
        }
        i = i + 1;
    }
    proof {
        assert(v@.subrange(0, v@.len() as int) =~= v@);
    }
    r
}

/// Decide whether two vectors of pairs hold the same multiset.
pub fn multiset_equal_pairs(a: &Vec<Pair>, b: &Vec<Pair>) -> (r: bool)
    ensures
        r == (a@.to_multiset() == b@.to_multiset()),
{
    let mut i: usize = 0;
    while i < a.len()
        invariant
            i <= a@.len(),
            forall|j: int| 0 <= j < i ==> pair_count(a@, #[trigger] a@[j]) == pair_count(b@, a@[j]),
        decreases a@.len() - i,
    {
        let x = a[i];
        if count_pair(a, x) != count_pair(b, x) {
            proof {
                lemma_pair_count_is_multiset_count(a@, a@[i as int]);
                lemma_pair_count_is_multiset_count(b@, a@[i as int]);
            }
            return false;
        }
        i = i + 1;
    }
    let mut i: usize = 0;
    while i < b.len()
        invariant
            i <= b@.len(),
            forall|j: int| 0 <= j < a@.len() ==> pair_count(a@, #[trigger] a@[j]) == pair_count(
                b@,
                a@[j],
            ),
            forall|j: int| 0 <= j < i ==> pair_count(a@, #[trigger] b@[j]) == pair_count(b@, b@[j]),
        decreases b@.len() - i,
    {
        let x = b[i];
        if count_pair(a, x) != count_pair(b, x) {
            proof {
                lemma_pair_count_is_multiset_count(a@, b@[i as int]);
                lemma_pair_count_is_multiset_count(b@, b@[i as int]);
            }
            return false;
        }
        i = i + 1;
    }
    proof {
        assert forall|x: Pair| a@.to_multiset().count(x) == b@.to_multiset().count(x) by {
            lemma_pair_count_is_multiset_count(a@, x);
            lemma_pair_count_is_multiset_count(b@, x);
            if a@.to_multiset().count(x) > 0 {
                let j = choose|j: int| 0 <= j < a@.len() && a@[j] == x;
                assert(pair_count(a@, a@[j]) == pair_count(b@, a@[j]));
            } else if b@.to_multiset().count(x) > 0 {
                let j = choose|j: int| 0 <= j < b@.len() && b@[j] == x;
                assert(pair_count(a@, b@[j]) == pair_count(b@, b@[j]));
            }
        }
        assert(a@.to_multiset() =~= b@.to_multiset());
    }
    true
}

/// Collect the left masked stream of the table, row by row; `None` when an
/// enabled left witness cell is still unknown.
fn collect_left(arg: ShuffleArgument, t: &Table) -> (r: Option<Vec<Pair>>)
    requires
        t.wf(),
        arg_fits(arg, *t),
    ensures
        match r {
            Some(v) => left_known(arg, *t) && v@ == left_stream(arg, *t),
            None => !left_known(arg, *t),
        },
{
    let mut v: Vec<Pair> = Vec::new();
    let mut i: usize = 0;
    while i < t.capacity
        invariant
            t.wf(),
            arg_fits(arg, *t),
            i <= t.capacity,
            v@.len() == i,
            forall|j: int| 0 <= j < i ==> v@[j] == left_pair_at(arg, *t, j),
            forall|j: int|
                0 <= j < i && t.selector_at(arg.s_input, j) ==> (#[trigger] t.advice_at(
                    arg.input_0,
                    j,
                )).is_known(),
        decreases t.capacity - i,
    {
        if t.selectors[arg.s_input.index][i] {
            match t.advice[arg.input_0.index][i] {
                WitnessValue::Known(x) => {
                    v.push((x, t.fixed[arg.input_1.index][i]));
                },
                WitnessValue::Unknown => {
                    proof {
                        assert(t.selector_at(arg.s_input, i as int));
                        assert(!t.advice_at(arg.input_0, i as int).is_known());
                    }
                    return None;
                },
            }
        } else {
            v.push((0, 0));
        }
        i = i + 1;
    }
    proof {
        assert(v@ =~= left_stream(arg, *t));
    }
    Some(v)
}

/// Collect the right masked stream of the table, row by row; `None` when an
/// enabled right witness cell is still unknown.
fn collect_right(arg: ShuffleArgument, t: &Table) -> (r: Option<Vec<Pair>>)
    requires
        t.wf(),
        arg_fits(arg, *t),
    ensures
        match r {
            Some(v) => right_known(arg, *t) && v@ == right_stream(arg, *t),
            None => !right_known(arg, *t),
        },
{
    let mut v: Vec<Pair> = Vec::new();
    let mut i: usize = 0;
    while i < t.capacity
        invariant
            t.wf(),
            arg_fits(arg, *t),
            i <= t.capacity,
            v@.len() == i,
            forall|j: int| 0 <= j < i ==> v@[j] == right_pair_at(arg, *t, j),
            forall|j: int|
                0 <= j < i && t.selector_at(arg.s_shuffle, j) ==> (#[trigger] t.advice_at(
                    arg.shuffle_0,
                    j,
                )).is_known() && t.advice_at(arg.shuffle_1, j).is_known(),
        decreases t.capacity - i,
    {
        if t.selectors[arg.s_shuffle.index][i] {
            let c0 = t.advice[arg.shuffle_0.index][i];
            let c1 = t.advice[arg.shuffle_1.index][i];
            match (c0, c1) {
                (WitnessValue::Known(x0), WitnessValue::Known(x1)) => {
                    v.push((x0, x1));
                },
                _ => {
                    proof {
                        assert(t.selector_at(arg.s_shuffle, i as int));
                        assert(c0 == t.advice_at(arg.shuffle_0, i as int));
                        assert(c1 == t.advice_at(arg.shuffle_1, i as int));
                        assert(!(c0.is_known() && c1.is_known()));
                    }
                    return None;
                },
            }
        } else {
            v.push((0, 0));
        }
        i = i + 1;
    }
    proof {
        assert(v@ =~= right_stream(arg, *t));
    }
    Some(v)
}

/// Decide one shuffle argument on a table: both streams fully known and
/// multiset-equal.
pub fn check_shuffle(arg: ShuffleArgument, t: &Table) -> (r: bool)
    requires
        t.wf(),
        arg_fits(arg, *t),
    ensures
        r == shuffle_holds(arg, *t),
{
    let left = match collect_left(arg, t) {
        Some(v) => v,
        None => {
            return false;
        },
    };
    let right = match collect_right(arg, t) {
        Some(v) => v,
        None => {
            return false;
        },
    };
    multiset_equal_pairs(&left, &right)
}

/// Decide every shuffle argument a shape registered on a table.
pub fn check_all_shuffles(cs: &ConstraintSystem, t: &Table) -> (r: bool)
    requires
        t.wf(),
        t.matches_shape(*cs),
        cs.wf(),
    ensures
        r == all_shuffles_hold(*cs, *t),
{
    let mut k: usize = 0;
    while k < cs.shuffles.len()
        invariant
            t.wf(),
            t.matches_shape(*cs),
            cs.wf(),
            k <= cs.shuffles@.len(),
            forall|j: int| 0 <= j < k ==> shuffle_holds(#[trigger] cs.shuffles@[j], *t),
        decreases cs.shuffles@.len() - k,
    {
        let arg = cs.shuffles[k];
        if !check_shuffle(arg, t) {
            return false;
        }
        k = k + 1;
    }
    true
}

/// A synthesized step table has its left pairs on the leading rows and its
/// right pairs right after; this lemma reduces the shuffle constraint on
/// such a table to knownness of the loaded witness values plus multiset
/// equality of the two zero-padded pair sequences.
pub proof fn lemma_holds_iff_padded(
    arg: ShuffleArgument,
    t: Table,
    lvals: Seq<WitnessValue>,
    lconsts: Seq<FieldElem>,
    r0vals: Seq<WitnessValue>,
    r1vals: Seq<WitnessValue>,
)
    requires
        t.wf(),
        arg_fits(arg, t),
        lvals.len() == lconsts.len(),
        r0vals.len() == r1vals.len(),
        lvals.len() + r0vals.len() <= t.capacity,
        forall|row: int|
            0 <= row < t.capacity ==> t.selector_at(arg.s_input, row) == (0 <= row < lvals.len()),
        forall|row: int|
            0 <= row < t.capacity ==> t.selector_at(arg.s_shuffle, row) == (lvals.len() <= row
                < lvals.len() + r0vals.len()),
        forall|i: int| 0 <= i < lvals.len() ==> t.advice_at(arg.input_0, i) == lvals[i],
        forall|i: int| 0 <= i < lconsts.len() ==> t.fixed_at(arg.input_1, i) == lconsts[i],
        forall|i: int|
            0 <= i < r0vals.len() ==> t.advice_at(arg.shuffle_0, lvals.len() + i) == r0vals[i],
        forall|i: int|
            0 <= i < r1vals.len() ==> t.advice_at(arg.shuffle_1, lvals.len() + i) == r1vals[i],
    ensures
        shuffle_holds(arg, t) <==> {
            &&& vals_known(lvals)
            &&& vals_known(r0vals)
            &&& vals_known(r1vals)
            &&& padded(paired_with_consts(lvals, lconsts), t.capacity as nat).to_multiset()
                == padded(paired_vals(r0vals, r1vals), t.capacity as nat).to_multiset()
        },
{
    let cap = t.capacity as nat;
    let ll = lvals.len() as int;
    let lr = r0vals.len() as int;
    assert(left_known(arg, t) <==> vals_known(lvals)) by {
        if vals_known(lvals) {
            assert forall|i: int|
                0 <= i < t.capacity && t.selector_at(arg.s_input, i) implies (#[trigger] t.advice_at(
                arg.input_0,
                i,
            )).is_known() by {
                assert(lvals[i].is_known());
            }
        }
        if left_known(arg, t) {
            assert forall|i: int| 0 <= i < lvals.len() implies (#[trigger] lvals[i]).is_known() by {
                assert(t.selector_at(arg.s_input, i));
                assert(t.advice_at(arg.input_0, i).is_known());
            }
        }
    }
    assert(right_known(arg, t) <==> (vals_known(r0vals) && vals_known(r1vals))) by {
        if vals_known(r0vals) && vals_known(r1vals) {
            assert forall|i: int|
                0 <= i < t.capacity && t.selector_at(arg.s_shuffle, i) implies (
            #[trigger] t.advice_at(arg.shuffle_0, i)).is_known() && t.advice_at(
                arg.shuffle_1,
                i,
            ).is_known() by {
                let j = i - lvals.len();
                assert(0 <= j < r0vals.len());
                assert(t.advice_at(arg.shuffle_0, lvals.len() + j) == r0vals[j]);
                assert(t.advice_at(arg.shuffle_1, lvals.len() + j) == r1vals[j]);
                assert(lvals.len() + j == i);
                assert(r0vals[j].is_known());
                assert(r1vals[j].is_known());
            }
        }
        if right_known(arg, t) {
            assert forall|i: int| 0 <= i < r0vals.len() implies (
            #[trigger] r0vals[i]).is_known() by {
                assert(t.selector_at(arg.s_shuffle, lvals.len() + i));
                assert(t.advice_at(arg.shuffle_0, lvals.len() + i).is_known());
                assert(t.advice_at(arg.shuffle_0, lvals.len() + i) == r0vals[i]);
            }
            assert forall|i: int| 0 <= i < r1vals.len() implies (
            #[trigger] r1vals[i]).is_known() by {
                assert(t.selector_at(arg.s_shuffle, lvals.len() + i));
                assert(t.advice_at(arg.shuffle_0, lvals.len() + i).is_known());
                assert(t.advice_at(arg.shuffle_1, lvals.len() + i).is_known());
                assert(t.advice_at(arg.shuffle_1, lvals.len() + i) == r1vals[i]);
            }
        }
    }
    if left_known(arg, t) && right_known(arg, t) {
        let lp = paired_with_consts(lvals, lconsts);
        let rp = paired_vals(r0vals, r1vals);
        assert(left_stream(arg, t) =~= padded(lp, cap)) by {
            assert forall|row: int| 0 <= row < cap implies left_stream(arg, t)[row] == padded(
                lp,
                cap,
            )[row] by {
                if row < ll {
                    assert(t.selector_at(arg.s_input, row));
                    assert(left_pair_at(arg, t, row) == (lvals[row].value(), lconsts[row]));
                } else {
                    assert(!t.selector_at(arg.s_input, row));
                    assert(padded(lp, cap)[row] == zero_pad((cap - ll) as nat)[row - ll]);
                }
            }
        }
        let mid = paired_vals(r0vals, r1vals);
        let rs = right_stream(arg, t);
        assert(rs =~= zero_pad(ll as nat) + mid + zero_pad((cap - ll - lr) as nat)) by {
            assert forall|row: int|
                0 <= row < cap implies rs[row] == (zero_pad(ll as nat) + mid + zero_pad(
                (cap - ll - lr) as nat,
            ))[row] by {
                if row < ll {
                    assert(!t.selector_at(arg.s_shuffle, row));
                    assert((zero_pad(ll as nat) + mid + zero_pad((cap - ll - lr) as nat))[row]
                        == zero_pad(ll as nat)[row]);
                } else if row < ll + lr {
                    assert(t.selector_at(arg.s_shuffle, row));
                    let j = row - lvals.len();
                    assert(t.advice_at(arg.shuffle_0, lvals.len() + j) == r0vals[j]);
                    assert(t.advice_at(arg.shuffle_1, lvals.len() + j) == r1vals[j]);
                    assert(lvals.len() + j == row);
                    assert((zero_pad(ll as nat) + mid + zero_pad((cap - ll - lr) as nat))[row]
                        == mid[row - ll]);
                } else {
                    assert(!t.selector_at(arg.s_shuffle, row));
                    assert((zero_pad(ll as nat) + mid + zero_pad((cap - ll - lr) as nat))[row]
                        == zero_pad((cap - ll - lr) as nat)[row - ll - lr]);
                }
            }
        }
        assert(rs.to_multiset() == padded(rp, cap).to_multiset()) by {
            assert forall|x: Pair| #[trigger] pair_count(rs, x) == pair_count(
                padded(rp, cap),
                x,
            ) by {
                lemma_pair_count_add(zero_pad(ll as nat) + mid, zero_pad((cap - ll - lr) as nat), x);
                lemma_pair_count_add(zero_pad(ll as nat), mid, x);
                lemma_zero_pad_count(ll as nat, x);
                lemma_zero_pad_count((cap - ll - lr) as nat, x);
                lemma_padded_count(rp, cap, x);
                assert(zero_pad(ll as nat) + mid + zero_pad((cap - ll - lr) as nat) == (zero_pad(
                    ll as nat,
                ) + mid) + zero_pad((cap - ll - lr) as nat));
            }
            lemma_multiset_eq_by_counts(rs, padded(rp, cap));
        }
        assert(left_stream(arg, t).to_multiset() == padded(lp, cap).to_multiset());
    }
}

/// Every value of the sequence is a concrete field element.
pub open spec fn vals_known(s: Seq<WitnessValue>) -> bool {
    forall|i: int| 0 <= i < s.len() ==> (#[trigger] s[i]).is_known()
}

/// Pairs of a witness column and a constant column, row by row.
pub open spec fn paired_with_consts(a: Seq<WitnessValue>, b: Seq<FieldElem>) -> Seq<Pair> {
    Seq::new(a.len(), |i: int| (a[i].value(), b[i]))
}

/// Pairs of two witness columns, row by row.
pub open spec fn paired_vals(a: Seq<WitnessValue>, b: Seq<WitnessValue>) -> Seq<Pair> {
    Seq::new(a.len(), |i: int| (a[i].value(), b[i].value()))
}

} // verus!
