//! What one counting pass of the radix sort computes, and why a chain of
//! stable passes sorts.

use vstd::prelude::*;

verus! {

/// The 8-bit digit of `key` that starts at bit `shift`.
pub open spec fn digit_of(key: u32, shift: u32) -> int {
    ((key >> shift) & 0xFF) as int
}

/// How many of the first `upto` keys have the digit `d`.
pub open spec fn count_digit(keys: Seq<u32>, shift: u32, d: int, upto: int) -> int
    decreases upto,
{
    if upto <= 0 {
        0
    } else {
        count_digit(keys, shift, d, upto - 1) + if digit_of(keys[upto - 1], shift) == d {
            1int
        } else {
            0int
        }
    }
}

/// How many of the first `upto` keys have a digit smaller than `d`.
pub open spec fn count_below(keys: Seq<u32>, shift: u32, d: int, upto: int) -> int
    decreases d,
{
    if d <= 0 {
        0
    } else {
        count_below(keys, shift, d - 1, upto) + count_digit(keys, shift, d - 1, upto)
    }
}

/// Where key `i` of the first `n` keys goes in a stable pass on one digit:
/// behind every key with a smaller digit and behind the earlier keys with
/// the same digit.
pub open spec fn pass_rank(keys: Seq<u32>, shift: u32, n: int, i: int) -> int {
    count_below(keys, shift, digit_of(keys[i], shift), n) + count_digit(
        keys,
        shift,
        digit_of(keys[i], shift),
        i,
    )
}

/// `out` holds the first `n` key-value pairs of `inp`, pair `from[p]` at place `p`,
/// each pair once.
pub open spec fn is_rearrangement(
    out_keys: Seq<u32>,
    out_vals: Seq<u32>,
    in_keys: Seq<u32>,
    in_vals: Seq<u32>,
    n: int,
    from: Seq<int>,
) -> bool {
    &&& from.len() == n
    &&& n <= out_keys.len()
    &&& n <= out_vals.len()
    &&& n <= in_keys.len()
    &&& n <= in_vals.len()
    &&& forall|p: int| 0 <= p < n ==> 0 <= #[trigger] from[p] < n
    &&& forall|p: int, q: int| 0 <= p < q < n ==> #[trigger] from[p] != #[trigger] from[q]
    &&& forall|p: int|
        0 <= p < n ==> out_keys[p] == in_keys[#[trigger] from[p]] && out_vals[p]
            == in_vals[from[p]]
}

/// The pairs stand in the order of `measure` of their keys, and pairs of
/// equal measure in the order in which they stood in the input.
pub open spec fn is_stable_order(
    in_keys: Seq<u32>,
    n: int,
    from: Seq<int>,
    measure: spec_fn(u32) -> int,
) -> bool {
    forall|p: int, q: int|
        0 <= p < q < n ==> measure(in_keys[#[trigger] from[p]]) < measure(
            in_keys[#[trigger] from[q]],
        ) || (measure(in_keys[from[p]]) == measure(in_keys[from[q]]) && from[p] < from[q])
}

/// `out` holds the first `n` pairs of `inp` sorted by key, pairs of equal
/// keys in the order of `inp`; `from[p]` is where pair `p` stood.
pub open spec fn is_stable_sort(
    out_keys: Seq<u32>,
    out_vals: Seq<u32>,
    in_keys: Seq<u32>,
    in_vals: Seq<u32>,
    n: int,
    from: Seq<int>,
) -> bool {
    is_rearrangement(out_keys, out_vals, in_keys, in_vals, n, from) && is_stable_order(
        in_keys,
        n,
        from,
        |k: u32| k as int,
    )
}

/// The low `8 * passes` bits of `key`: what the first `passes` passes have sorted by.
pub open spec fn low_key(key: u32, passes: int) -> int {
    if passes <= 0 {
        0
    } else if passes == 1 {
        (key & 0xFF) as int
    } else if passes == 2 {
        (key & 0xFFFF) as int
    } else if passes == 3 {
        (key & 0xFF_FFFF) as int
    } else {
        key as int
    }
}

/// A digit is a number below 256.
pub proof fn lemma_digit_range(key: u32, shift: u32)
    requires
        shift < 32,
    ensures
        0 <= digit_of(key, shift) < 256,
{
    assert((key >> shift) & 0xFF < 256) by (bit_vector);
}

/// The count of a digit grows with the prefix, by one at most for each key.
pub proof fn lemma_count_digit_bounds(keys: Seq<u32>, shift: u32, d: int, a: int, b: int)
    requires
        0 <= a <= b,
    ensures
        0 <= count_digit(keys, shift, d, a) <= count_digit(keys, shift, d, b),
        count_digit(keys, shift, d, b) - count_digit(keys, shift, d, a) <= b - a,
        count_digit(keys, shift, d, a) <= a,
    decreases b,
{
    if a < b {
        lemma_count_digit_bounds(keys, shift, d, a, b - 1);
    } else if a > 0 {
        lemma_count_digit_bounds(keys, shift, d, a - 1, a - 1);
    }
}

/// Key `i` itself is counted once it lies inside the prefix.
pub proof fn lemma_count_digit_hit(keys: Seq<u32>, shift: u32, i: int, b: int)
    requires
        0 <= i < b,
    ensures
        count_digit(keys, shift, digit_of(keys[i], shift), i) < count_digit(
            keys,
            shift,
            digit_of(keys[i], shift),
            b,
        ),
{
    let d = digit_of(keys[i], shift);
    assert(count_digit(keys, shift, d, i + 1) == count_digit(keys, shift, d, i) + 1);
    lemma_count_digit_bounds(keys, shift, d, i + 1, b);
}

/// The count of the smaller digits grows with the digit.
pub proof fn lemma_count_below_monotone(keys: Seq<u32>, shift: u32, d1: int, d2: int, n: int)
    requires
        d1 <= d2,
        0 <= n,
    ensures
        0 <= count_below(keys, shift, d1, n) <= count_below(keys, shift, d2, n),
    decreases d2 - d1, d2,
{
    if d1 < d2 {
        lemma_count_below_monotone(keys, shift, d1, d2 - 1, n);
        if d2 > 0 {
            lemma_count_digit_bounds(keys, shift, d2 - 1, 0, n);
        }
    } else if d2 > 0 {
        lemma_count_below_monotone(keys, shift, d2 - 1, d2 - 1, n);
        lemma_count_digit_bounds(keys, shift, d2 - 1, 0, n);
    }
}

proof fn lemma_count_below_step(keys: Seq<u32>, shift: u32, d: int, upto: int)
    requires
        0 <= d,
        1 <= upto,
        0 <= digit_of(keys[upto - 1], shift),
    ensures
        count_below(keys, shift, d, upto) == count_below(keys, shift, d, upto - 1) + if digit_of(
            keys[upto - 1],
            shift,
        ) < d {
            1int
        } else {
            0int
        },
    decreases d,
{
    if d > 0 {
        lemma_count_below_step(keys, shift, d - 1, upto);
    }
}

/// Every key has one digit, so the counts of all 256 digits add up to the
/// number of keys.
pub proof fn lemma_count_below_total(keys: Seq<u32>, shift: u32, n: int)
    requires
        shift < 32,
        0 <= n,
    ensures
        count_below(keys, shift, 256, n) == n,
    decreases n,
{
    if n == 0 {
        lemma_count_below_zero(keys, shift, 256);
    } else {
        lemma_count_below_total(keys, shift, n - 1);
        lemma_digit_range(keys[n - 1], shift);
        lemma_count_below_step(keys, shift, 256, n);
    }
}

/// Among no keys no digit occurs.
pub proof fn lemma_count_below_zero(keys: Seq<u32>, shift: u32, d: int)
    ensures
        count_below(keys, shift, d, 0) == 0,
    decreases d,
{
    if d > 0 {
        lemma_count_below_zero(keys, shift, d - 1);
    }
}

/// The places that a pass hands to the keys with digit `d` end where those
/// of digit `d + 1` begin, and all of them lie below `n`.
pub proof fn lemma_digit_block(keys: Seq<u32>, shift: u32, n: int, d: int, upto: int)
    requires
        shift < 32,
        0 <= d < 256,
        0 <= upto <= n,
    ensures
        0 <= count_below(keys, shift, d, n),
        count_below(keys, shift, d, n) + count_digit(keys, shift, d, upto) <= count_below(
            keys,
            shift,
            d + 1,
            n,
        ),
        count_below(keys, shift, d + 1, n) <= n,
{
    lemma_count_digit_bounds(keys, shift, d, upto, n);
    lemma_count_below_monotone(keys, shift, d + 1, 256, n);
    lemma_count_below_monotone(keys, shift, d, d, n);
    lemma_count_below_total(keys, shift, n);
}

/// A pass keeps the order of the digits and, among equal digits, the order
/// of the input.
pub proof fn lemma_pass_rank_order(keys: Seq<u32>, shift: u32, n: int, i: int, j: int)
    requires
        shift < 32,
        0 <= i < n,
        0 <= j < n,
        digit_of(keys[i], shift) < digit_of(keys[j], shift) || (digit_of(keys[i], shift)
            == digit_of(keys[j], shift) && i < j),
    ensures
        pass_rank(keys, shift, n, i) < pass_rank(keys, shift, n, j),
{
    let di = digit_of(keys[i], shift);
    let dj = digit_of(keys[j], shift);
    lemma_digit_range(keys[i], shift);
    lemma_digit_range(keys[j], shift);
    if di == dj {
        lemma_count_digit_hit(keys, shift, i, j);
    } else {
        lemma_count_digit_hit(keys, shift, i, n);
        lemma_count_below_monotone(keys, shift, di + 1, dj, n);
        lemma_count_digit_bounds(keys, shift, dj, 0, j);
    }
}

/// A pass sends every key to a place below `n`.
pub proof fn lemma_pass_rank_bound(keys: Seq<u32>, shift: u32, n: int, i: int)
    requires
        shift < 32,
        0 <= i < n,
    ensures
        0 <= pass_rank(keys, shift, n, i) < n,
{
    let d = digit_of(keys[i], shift);
    lemma_digit_range(keys[i], shift);
    lemma_count_digit_hit(keys, shift, i, n);
    lemma_digit_block(keys, shift, n, d, n);
    lemma_count_digit_bounds(keys, shift, d, 0, i);
}

/// No two keys go to the same place.
pub proof fn lemma_pass_rank_injective(keys: Seq<u32>, shift: u32, n: int, i: int, j: int)
    requires
        shift < 32,
        0 <= i < n,
        0 <= j < n,
        i != j,
    ensures
        pass_rank(keys, shift, n, i) != pass_rank(keys, shift, n, j),
{
    let di = digit_of(keys[i], shift);
    let dj = digit_of(keys[j], shift);
    if di < dj || (di == dj && i < j) {
        lemma_pass_rank_order(keys, shift, n, i, j);
    } else {
        lemma_pass_rank_order(keys, shift, n, j, i);
    }
}

/// Every place below `n` is taken by some key.
pub proof fn lemma_pass_rank_onto(keys: Seq<u32>, shift: u32, n: int, p: int)
    requires
        shift < 32,
        0 <= p < n,
    ensures
        exists|i: int| 0 <= i < n && pass_rank(keys, shift, n, i) == p,
{
    let ranks = Seq::new(n as nat, |i: int| pass_rank(keys, shift, n, i));
    assert forall|i: int, j: int| 0 <= i < ranks.len() && 0 <= j < ranks.len() && i != j implies
        ranks[i] != ranks[j] by {
        lemma_pass_rank_injective(keys, shift, n, i, j);
    }
    assert(ranks.no_duplicates());
    ranks.unique_seq_to_set();
    let places = Set::new(|x: int| 0 <= x < n);
    vstd::set_lib::lemma_int_range(0, n);
    assert(places =~= vstd::set_lib::set_int_range(0, n));
    assert forall|x: int| ranks.to_set().contains(x) implies places.contains(x) by {
        let i = choose|i: int| 0 <= i < ranks.len() && ranks[i] == x;
        lemma_pass_rank_bound(keys, shift, n, i);
    }
    assert(ranks.to_set().subset_of(places));
    vstd::set_lib::lemma_subset_equality(ranks.to_set(), places);
    assert(ranks.to_set().contains(p));
    let i = choose|i: int| 0 <= i < ranks.len() && ranks[i] == p;
    assert(0 <= i < n && pass_rank(keys, shift, n, i) == p);
}

/// A buffer in which every key stands at its `pass_rank` is a stable
/// rearrangement of the input by that digit.
pub proof fn lemma_pass_is_stable(
    out_keys: Seq<u32>,
    out_vals: Seq<u32>,
    in_keys: Seq<u32>,
    in_vals: Seq<u32>,
    shift: u32,
    n: int,
) -> (from: Seq<int>)
    requires
        shift < 32,
        0 <= n <= in_keys.len(),
        n <= in_vals.len(),
        n <= out_keys.len(),
        n <= out_vals.len(),
        forall|i: int|
            0 <= i < n ==> out_keys[#[trigger] pass_rank(in_keys, shift, n, i)] == in_keys[i]
                && out_vals[pass_rank(in_keys, shift, n, i)] == in_vals[i],
    ensures
        is_rearrangement(out_keys, out_vals, in_keys, in_vals, n, from),
        is_stable_order(in_keys, n, from, |k: u32| digit_of(k, shift)),
{
    let from = Seq::new(
        n as nat,
        |p: int| choose|i: int| 0 <= i < n && pass_rank(in_keys, shift, n, i) == p,
    );
    assert forall|p: int| 0 <= p < n implies 0 <= #[trigger] from[p] < n && pass_rank(
        in_keys,
        shift,
        n,
        from[p],
    ) == p by {
        lemma_pass_rank_onto(in_keys, shift, n, p);
    }
    assert forall|p: int, q: int| 0 <= p < q < n implies #[trigger] from[p] != #[trigger] from[q]
        && (digit_of(in_keys[from[p]], shift) < digit_of(in_keys[from[q]], shift) || (digit_of(
        in_keys[from[p]],
        shift,
    ) == digit_of(in_keys[from[q]], shift) && from[p] < from[q])) by {
        let a = from[p];
        let b = from[q];
        assert(pass_rank(in_keys, shift, n, a) == p);
        assert(pass_rank(in_keys, shift, n, b) == q);
        let da = digit_of(in_keys[a], shift);
        let db = digit_of(in_keys[b], shift);
        if a != b && (db < da || (da == db && b < a)) {
            lemma_pass_rank_order(in_keys, shift, n, b, a);
        }
    }
    assert forall|p: int| 0 <= p < n implies out_keys[p] == in_keys[#[trigger] from[p]]
        && out_vals[p] == in_vals[from[p]] by {
        assert(pass_rank(in_keys, shift, n, from[p]) == p);
    }
    from
}

/// Sorting by the next digit refines the order of the low bits: keys compare
/// on their low `8 * (passes + 1)` bits as the pairs (digit, low `8 * passes`
/// bits) do.
pub proof fn lemma_low_key_step(passes: int)
    requires
        0 <= passes < 4,
    ensures
        forall|x: u32, y: u32|
            (#[trigger] low_key(x, passes + 1) < #[trigger] low_key(y, passes + 1)) <==> (digit_of(
                x,
                (8 * passes) as u32,
            ) < digit_of(y, (8 * passes) as u32) || (digit_of(x, (8 * passes) as u32) == digit_of(
                y,
                (8 * passes) as u32,
            ) && low_key(x, passes) < low_key(y, passes))),
        forall|x: u32, y: u32|
            (#[trigger] low_key(x, passes + 1) == #[trigger] low_key(y, passes + 1)) <==> (digit_of(
                x,
                (8 * passes) as u32,
            ) == digit_of(y, (8 * passes) as u32) && low_key(x, passes) == low_key(y, passes)),
{
    assert forall|x: u32, y: u32|
        ((#[trigger] low_key(x, passes + 1) < #[trigger] low_key(y, passes + 1)) <==> (digit_of(
            x,
            (8 * passes) as u32,
        ) < digit_of(y, (8 * passes) as u32) || (digit_of(x, (8 * passes) as u32) == digit_of(
            y,
            (8 * passes) as u32,
        ) && low_key(x, passes) < low_key(y, passes)))) && ((low_key(x, passes + 1) == low_key(
            y,
            passes + 1,
        )) <==> (digit_of(x, (8 * passes) as u32) == digit_of(y, (8 * passes) as u32) && low_key(
            x,
            passes,
        ) == low_key(y, passes))) by {
        if passes == 0 {
            assert((x & 0xFF) == ((x >> 0) & 0xFF)) by (bit_vector);
            assert((y & 0xFF) == ((y >> 0) & 0xFF)) by (bit_vector);
        } else if passes == 1 {
            assert(((x & 0xFFFF) < (y & 0xFFFF)) <==> (((x >> 8) & 0xFF) < ((y >> 8) & 0xFF) || (((x
                >> 8) & 0xFF) == ((y >> 8) & 0xFF) && (x & 0xFF) < (y & 0xFF)))) by (bit_vector);
            assert(((x & 0xFFFF) == (y & 0xFFFF)) <==> (((x >> 8) & 0xFF) == ((y >> 8) & 0xFF) && (x
                & 0xFF) == (y & 0xFF))) by (bit_vector);
        } else if passes == 2 {
            assert(((x & 0xFF_FFFF) < (y & 0xFF_FFFF)) <==> (((x >> 16) & 0xFF) < ((y >> 16) & 0xFF)
                || (((x >> 16) & 0xFF) == ((y >> 16) & 0xFF) && (x & 0xFFFF) < (y & 0xFFFF))))
                by (bit_vector);
            assert(((x & 0xFF_FFFF) == (y & 0xFF_FFFF)) <==> (((x >> 16) & 0xFF) == ((y >> 16)
                & 0xFF) && (x & 0xFFFF) == (y & 0xFFFF))) by (bit_vector);
        } else {
            assert((x < y) <==> (((x >> 24) & 0xFF) < ((y >> 24) & 0xFF) || (((x >> 24) & 0xFF) == (
            (y >> 24) & 0xFF) && (x & 0xFF_FFFF) < (y & 0xFF_FFFF)))) by (bit_vector);
            assert((x == y) <==> (((x >> 24) & 0xFF) == ((y >> 24) & 0xFF) && (x & 0xFF_FFFF) == (y
                & 0xFF_FFFF))) by (bit_vector);
        }
    }
}

/// A stable pass on the next digit, made on pairs that stand in the stable
/// order of their low bits, leaves them in the stable order of one digit more.
pub proof fn lemma_stable_passes_compose(
    in_keys: Seq<u32>,
    in_vals: Seq<u32>,
    mid_keys: Seq<u32>,
    mid_vals: Seq<u32>,
    out_keys: Seq<u32>,
    out_vals: Seq<u32>,
    n: int,
    passes: int,
    first: Seq<int>,
    second: Seq<int>,
) -> (from: Seq<int>)
    requires
        0 <= passes < 4,
        is_rearrangement(mid_keys, mid_vals, in_keys, in_vals, n, first),
        is_stable_order(in_keys, n, first, |k: u32| low_key(k, passes)),
        is_rearrangement(out_keys, out_vals, mid_keys, mid_vals, n, second),
        is_stable_order(mid_keys, n, second, |k: u32| digit_of(k, (8 * passes) as u32)),
    ensures
        is_rearrangement(out_keys, out_vals, in_keys, in_vals, n, from),
        is_stable_order(in_keys, n, from, |k: u32| low_key(k, passes + 1)),
{
    let from = Seq::new(n as nat, |p: int| first[second[p]]);
    lemma_low_key_step(passes);
    let shift = (8 * passes) as u32;
    assert forall|p: int| 0 <= p < n implies 0 <= #[trigger] from[p] < n && out_keys[p]
        == in_keys[from[p]] && out_vals[p] == in_vals[from[p]] by {
        let a = second[p];
        assert(0 <= a < n);
        assert(0 <= first[a] < n);
    }
    assert forall|p: int, q: int| 0 <= p < q < n implies #[trigger] from[p] != #[trigger] from[q]
        && (low_key(in_keys[from[p]], passes + 1) < low_key(in_keys[from[q]], passes + 1) || (
    low_key(in_keys[from[p]], passes + 1) == low_key(in_keys[from[q]], passes + 1) && from[p]
        < from[q])) by {
        let a = second[p];
        let b = second[q];
        assert(0 <= a < n && 0 <= b < n && a != b);
        assert(mid_keys[a] == in_keys[first[a]]);
        assert(mid_keys[b] == in_keys[first[b]]);
        let x = in_keys[first[a]];
        let y = in_keys[first[b]];
        assert(digit_of(x, shift) < digit_of(y, shift) || (digit_of(x, shift) == digit_of(
            y,
            shift,
        ) && a < b));
        if digit_of(x, shift) == digit_of(y, shift) {
            assert(a < b);
            assert(low_key(x, passes) < low_key(y, passes) || (low_key(x, passes) == low_key(
                y,
                passes,
            ) && first[a] < first[b]));
        }
        if a < b {
            assert(first[a] != first[b]);
        } else {
            assert(first[b] != first[a]);
        }
    }
    from
}

/// What a stable sort gives: the keys do not decrease, equal keys keep the
/// order of the input, and the keys that equal the largest value `top`
/// (the marker of an unused slot) stand together at the end.
pub proof fn lemma_stable_sort_properties(
    out_keys: Seq<u32>,
    out_vals: Seq<u32>,
    in_keys: Seq<u32>,
    in_vals: Seq<u32>,
    n: int,
    from: Seq<int>,
)
    requires
        is_rearrangement(out_keys, out_vals, in_keys, in_vals, n, from),
        is_stable_order(in_keys, n, from, |k: u32| k as int),
    ensures
        forall|p: int, q: int| 0 <= p <= q < n ==> out_keys[p] <= out_keys[q],
        forall|p: int, q: int|
            0 <= p < q < n && out_keys[p] == out_keys[q] ==> #[trigger] from[p]
                < #[trigger] from[q],
        forall|p: int, q: int|
            0 <= p <= q < n && out_keys[p] == 0xFFFF_FFFFu32 ==> out_keys[q] == 0xFFFF_FFFFu32,
{
    assert forall|p: int, q: int| 0 <= p <= q < n implies out_keys[p] <= out_keys[q] by {
        if p < q {
            assert(out_keys[p] == in_keys[from[p]]);
            assert(out_keys[q] == in_keys[from[q]]);
        }
    }
    assert forall|p: int, q: int| 0 <= p < q < n && out_keys[p]
        == out_keys[q] implies #[trigger] from[p]
        < #[trigger] from[q] by {
        assert(out_keys[p] == in_keys[from[p]]);
        assert(out_keys[q] == in_keys[from[q]]);
    }
}

/// A sort keeps the pairs: the keys and the values after it are those
/// before it, each as often as before.
pub proof fn lemma_sort_keeps_items(
    out_keys: Seq<u32>,
    out_vals: Seq<u32>,
    in_keys: Seq<u32>,
    in_vals: Seq<u32>,
    n: int,
    from: Seq<int>,
)
    requires
        is_rearrangement(out_keys, out_vals, in_keys, in_vals, n, from),
    ensures
        out_keys.take(n).to_multiset() == in_keys.take(n).to_multiset(),
        out_vals.take(n).to_multiset() == in_vals.take(n).to_multiset(),
{
    assert forall|p: int| 0 <= p < n implies #[trigger] out_keys.take(n)[p] == in_keys.take(
        n,
    )[from[p]] && out_vals.take(n)[p] == in_vals.take(n)[from[p]] by {
        assert(0 <= from[p] < n);
    }
    crate::permutation::lemma_gathered_same_items(out_keys.take(n), in_keys.take(n), from);
    crate::permutation::lemma_gathered_same_items(out_vals.take(n), in_vals.take(n), from);
}

} // verus!
