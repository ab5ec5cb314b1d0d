//! Filling the gaps of the history: a day without a usable T-share rate or price takes the
//! one of the nearest earlier usable day, or failing that of the nearest later one.
use vstd::prelude::*;
use crate::history::HexJsonEntry;

verus! {

/// The last usable position at or before `i`, or -1 when there is none.
pub open spec fn last_usable_upto(usable: Seq<bool>, i: int) -> int
    decreases i + 1,
{
    if i < 0 {
        -1
    } else if usable[i] {
        i
    } else {
        last_usable_upto(usable, i - 1)
    }
}

/// The first usable position at or after `i`, or the length when there is none.
pub open spec fn first_usable_from(usable: Seq<bool>, i: int) -> int
    decreases usable.len() - i,
{
    if i >= usable.len() {
        usable.len() as int
    } else if usable[i] {
        i
    } else {
        first_usable_from(usable, i + 1)
    }
}

/// The value that position `i` ends up with: the nearest usable value at or before it,
/// else the nearest after it, else `zero`.
pub open spec fn filled_value<F>(values: Seq<F>, usable: Seq<bool>, zero: F, i: int) -> F {
    let b = last_usable_upto(usable, i);
    let a = first_usable_from(usable, i + 1);
    if b >= 0 {
        values[b]
    } else if a < usable.len() {
        values[a]
    } else {
        zero
    }
}

/// The value position `i` holds after the forward pass.
pub open spec fn forward_value<F>(values: Seq<F>, usable: Seq<bool>, zero: F, i: int) -> F {
    let b = last_usable_upto(usable, i);
    if b >= 0 {
        values[b]
    } else {
        zero
    }
}

proof fn lemma_last_usable_bounds(usable: Seq<bool>, i: int)
    requires
        -1 <= i < usable.len(),
    ensures
        -1 <= last_usable_upto(usable, i) <= i,
        last_usable_upto(usable, i) >= 0 ==> usable[last_usable_upto(usable, i)],
        forall|j: int| last_usable_upto(usable, i) < j <= i ==> !usable[j],
    decreases i + 1,
{
    if i >= 0 && !usable[i] {
        lemma_last_usable_bounds(usable, i - 1);
    }
}

proof fn lemma_first_usable_bounds(usable: Seq<bool>, i: int)
    requires
        0 <= i,
    ensures
        i <= first_usable_from(usable, i) || (i > usable.len() && first_usable_from(usable, i)
            == usable.len()),
        first_usable_from(usable, i) <= usable.len(),
        first_usable_from(usable, i) < usable.len() ==> usable[first_usable_from(usable, i)],
        forall|j: int| i <= j < first_usable_from(usable, i) ==> !usable[j],
    decreases usable.len() - i,
{
    if i < usable.len() && !usable[i] {
        lemma_first_usable_bounds(usable, i + 1);
    }
}

/// A position with no usable value up to it lies before the first usable one.
proof fn lemma_none_before_first(usable: Seq<bool>, k: int)
    requires
        0 <= k < usable.len(),
        last_usable_upto(usable, k) < 0,
    ensures
        first_usable_from(usable, k + 1) == first_usable_from(usable, 0),
        forall|j: int| 0 <= j <= k ==> !usable[j],
{
    lemma_last_usable_bounds(usable, k);
    lemma_first_from_skips(usable, 0, k + 1);
}

/// Skipping positions that are not usable does not change the first usable one.
proof fn lemma_first_from_skips(usable: Seq<bool>, i: int, j: int)
    requires
        0 <= i <= j <= usable.len(),
        forall|m: int| i <= m < j ==> !usable[m],
    ensures
        first_usable_from(usable, i) == first_usable_from(usable, j),
    decreases j - i,
{
    if i < j {
        lemma_first_from_skips(usable, i + 1, j);
    }
}

/// A usable position keeps its own value.
pub proof fn lemma_fill_keeps_usable<F>(values: Seq<F>, usable: Seq<bool>, zero: F, i: int)
    requires
        values.len() == usable.len(),
        0 <= i < usable.len(),
        usable[i],
    ensures
        filled_value(values, usable, zero, i) == values[i],
{
}

/// A position takes the value of the nearest usable position `j` at or before it: the one
/// with no usable position between them.
pub proof fn lemma_fill_takes_nearest_earlier<F>(
    values: Seq<F>,
    usable: Seq<bool>,
    zero: F,
    i: int,
    j: int,
)
    requires
        values.len() == usable.len(),
        0 <= j <= i < usable.len(),
        usable[j],
        forall|m: int| j < m <= i ==> !usable[m],
    ensures
        filled_value(values, usable, zero, i) == values[j],
{
    lemma_last_usable_bounds(usable, i);
    let b = last_usable_upto(usable, i);
    if b < j {
        assert(j <= i && b < j);
        assert(!usable[j]);
    }
    if b > j {
        assert(!usable[b]);
    }
}

/// A position with no usable position at or before it takes the value of the first usable
/// position `j`, which lies after it.
pub proof fn lemma_fill_takes_first_later<F>(
    values: Seq<F>,
    usable: Seq<bool>,
    zero: F,
    i: int,
    j: int,
)
    requires
        values.len() == usable.len(),
        0 <= i < j < usable.len(),
        usable[j],
        forall|m: int| 0 <= m < j ==> !usable[m],
    ensures
        filled_value(values, usable, zero, i) == values[j],
{
    lemma_last_usable_bounds(usable, i);
    let b = last_usable_upto(usable, i);
    if b >= 0 {
        assert(usable[b]);
    }
    lemma_first_usable_bounds(usable, i + 1);
    let a = first_usable_from(usable, i + 1);
    if a < j {
        assert(usable[a]);
    }
    if a > j {
        assert(i + 1 <= j < a);
        assert(!usable[j]);
    }
}

/// When some position is usable, every position ends up with the value of a usable one.
pub proof fn lemma_fill_from_usable<F>(values: Seq<F>, usable: Seq<bool>, zero: F, i: int)
    requires
        values.len() == usable.len(),
        0 <= i < usable.len(),
        exists|j: int| 0 <= j < usable.len() && usable[j],
    ensures
        exists|j: int|
            0 <= j < usable.len() && usable[j] && filled_value(values, usable, zero, i)
                == values[j],
{
    lemma_last_usable_bounds(usable, i);
    let b = last_usable_upto(usable, i);
    if b >= 0 {
        assert(usable[b] && filled_value(values, usable, zero, i) == values[b]);
    } else {
        let w = choose|j: int| 0 <= j < usable.len() && usable[j];
        if w <= i {
            assert(b < w <= i);
            assert(!usable[w]);
        }
        lemma_first_usable_bounds(usable, i + 1);
        let a = first_usable_from(usable, i + 1);
        if a > w {
            assert(!usable[w]);
        }
        assert(usable[a] && filled_value(values, usable, zero, i) == values[a]);
    }
}

/// With no usable position at all, every position is filled with `zero`.
pub proof fn lemma_fill_none_usable<F>(values: Seq<F>, usable: Seq<bool>, zero: F, i: int)
    requires
        values.len() == usable.len(),
        0 <= i < usable.len(),
        forall|m: int| 0 <= m < usable.len() ==> !usable[m],
    ensures
        filled_value(values, usable, zero, i) == zero,
{
    lemma_none_usable_fills_zero(values, usable, zero, i);
}

/// The whole series after its gaps are filled.
pub open spec fn filled_series<F>(values: Seq<F>, usable: Seq<bool>, zero: F) -> Seq<F> {
    Seq::new(values.len(), |i: int| filled_value(values, usable, zero, i))
}

/// Some position is usable.
pub open spec fn any_usable(usable: Seq<bool>) -> bool {
    exists|j: int| 0 <= j < usable.len() && usable[j]
}

/// With no usable position, every position is filled with `zero`.
proof fn lemma_none_usable_fills_zero<F>(values: Seq<F>, usable: Seq<bool>, zero: F, i: int)
    requires
        0 <= i < usable.len(),
        !any_usable(usable),
    ensures
        filled_value(values, usable, zero, i) == zero,
{
    lemma_last_usable_bounds(usable, i);
    lemma_first_usable_bounds(usable, i + 1);
    if last_usable_upto(usable, i) >= 0 {
        assert(usable[last_usable_upto(usable, i)]);
    }
    if first_usable_from(usable, i + 1) < usable.len() {
        assert(usable[first_usable_from(usable, i + 1)]);
    }
}

/// Filling gaps a second time changes nothing. After a first pass every position holds a
/// usable value when any position did (and `zero`, which is not usable, otherwise), so the
/// second pass sees `again[i] == any_usable(usable)` everywhere.
pub proof fn lemma_fill_gaps_twice<F>(values: Seq<F>, usable: Seq<bool>, zero: F, again: Seq<bool>)
    requires
        values.len() == usable.len(),
        again.len() == usable.len(),
        forall|i: int| 0 <= i < again.len() ==> #[trigger] again[i] == any_usable(usable),
    ensures
        filled_series(filled_series(values, usable, zero), again, zero) == filled_series(
            values,
            usable,
            zero,
        ),
{
    let once = filled_series(values, usable, zero);
    let twice = filled_series(once, again, zero);
    assert forall|i: int| 0 <= i < twice.len() implies twice[i] == once[i] by {
        if any_usable(usable) {
            assert(again[i]);
            assert(last_usable_upto(again, i) == i);
        } else {
            assert(!again[i]);
            assert(!any_usable(again)) by {
                if any_usable(again) {
                    let j = choose|j: int| 0 <= j < again.len() && again[j];
                    assert(again[j] == any_usable(usable));
                }
            }
            lemma_none_usable_fills_zero(once, again, zero, i);
            lemma_none_usable_fills_zero(values, usable, zero, i);
        }
    }
    assert(twice =~= once);
}

/// Fills the gaps of one series: each position ends up with the nearest usable value at or
/// before it, else the nearest one after it, else `zero`.
pub fn fill_gaps<F: Copy>(values: &mut Vec<F>, usable: &Vec<bool>, zero: F)
    requires
        old(values).len() == usable.len(),
    ensures
        final(values).len() == old(values).len(),
        forall|i: int|
            0 <= i < old(values).len() ==> final(values)@[i] == filled_value(
                old(values)@,
                usable@,
                zero,
                i,
            ),
{
    let ghost orig = values@;
    let n = values.len();
    let mut last = zero;
    let mut i: usize = 0;
    while i < n
        invariant
            n == values.len() == usable.len() == orig.len(),
            i <= n,
            last == forward_value(orig, usable@, zero, i - 1),
            forall|k: int| 0 <= k < i ==> values@[k] == forward_value(orig, usable@, zero, k),
            forall|k: int| i <= k < n ==> values@[k] == orig[k],
        decreases n - i,
    {
        if usable[i] {
            last = values[i];
        } else {
            values.set(i, last);
        }
        i = i + 1;
    }
    let mut f0: usize = 0;
    while f0 < n && !usable[f0]
        invariant
            f0 <= n == usable.len(),
            first_usable_from(usable@, 0) == first_usable_from(usable@, f0 as int),
        decreases n - f0,
    {
        f0 = f0 + 1;
    }
    proof {
        lemma_first_usable_bounds(usable@, 0);
    }
    let mut seen = false;
    let mut next = zero;
    let mut i: usize = n;
    while i > 0
        invariant
            n == values.len() == usable.len() == orig.len(),
            i <= n,
            f0 == first_usable_from(usable@, 0),
            forall|j: int| 0 <= j < f0 ==> !usable@[j],
            f0 <= n,
            f0 < n ==> usable@[f0 as int],
            forall|j: int| 0 <= j < f0 ==> !usable@[j],
            seen <==> (i < n && f0 < n),
            seen ==> next == forward_value(orig, usable@, zero, if i >= f0 {
                i as int
            } else {
                f0 as int
            }),
            forall|k: int| 0 <= k < i ==> values@[k] == forward_value(orig, usable@, zero, k),
            forall|k: int| i <= k < n ==> values@[k] == filled_value(orig, usable@, zero, k),
        decreases i,
    {
        let k = i - 1;
        proof {
            lemma_last_usable_bounds(usable@, k as int);
            if f0 < n && k >= f0 {
                lemma_last_usable_bounds(usable@, f0 as int);
                assert(last_usable_upto(usable@, k as int) >= f0) by {
                    if last_usable_upto(usable@, k as int) < f0 {
                        assert(!usable@[f0 as int]);
                    }
                }
            }
        }
        if k >= f0 {
            next = values[k];
            seen = true;
        } else if seen {
            proof {
                lemma_none_before_first(usable@, k as int);
                lemma_last_usable_bounds(usable@, f0 as int);
            }
            values.set(k, next);
        } else {
            proof {
                lemma_none_before_first(usable@, k as int);
            }
        }
        i = k;
    }
}

/// The T-share rates of a history.
pub open spec fn tshare_rates<F>(s: Seq<HexJsonEntry<F>>) -> Seq<F> {
    s.map_values(|e: HexJsonEntry<F>| e.tshare_rate_hex)
}

/// The prices of a history.
pub open spec fn prices<F>(s: Seq<HexJsonEntry<F>>) -> Seq<F> {
    s.map_values(|e: HexJsonEntry<F>| e.price_pulse_x)
}

/// Fills the gaps of a history's T-share rates and prices, the usable ones being marked in
/// `tshare_usable` and `price_usable` (the caller's test of a float): each missing value
/// becomes the nearest usable one of an earlier day, else of a later day, else `zero`. The
/// days, payouts and payouts per T-share are left as they are.
pub fn fill_history_gaps<F: Copy>(
    entries: &mut Vec<HexJsonEntry<F>>,
    tshare_usable: &Vec<bool>,
    price_usable: &Vec<bool>,
    zero: F,
)
    requires
        tshare_usable.len() == old(entries).len(),
        price_usable.len() == old(entries).len(),
    ensures
        final(entries).len() == old(entries).len(),
        forall|i: int|
            0 <= i < old(entries).len() ==> {
                let e = #[trigger] final(entries)@[i];
                let o = old(entries)@[i];
                &&& e.current_day == o.current_day
                &&& e.daily_payout_hex == o.daily_payout_hex
                &&& e.payout_per_tshare_hex == o.payout_per_tshare_hex
                &&& e.tshare_rate_hex == filled_value(
                    tshare_rates(old(entries)@),
                    tshare_usable@,
                    zero,
                    i,
                )
                &&& e.price_pulse_x == filled_value(prices(old(entries)@), price_usable@, zero, i)
            },
{
    let n = entries.len();
    let mut rates: Vec<F> = Vec::new();
    let mut ps: Vec<F> = Vec::new();
    let mut i: usize = 0;
    while i < n
        invariant
            i <= n == entries.len(),
            entries@ == old(entries)@,
            rates@ == tshare_rates(old(entries)@).take(i as int),
            ps@ == prices(old(entries)@).take(i as int),
        decreases n - i,
    {
        rates.push(entries[i].tshare_rate_hex);
        ps.push(entries[i].price_pulse_x);
        assert(rates@ =~= tshare_rates(old(entries)@).take(i + 1));
        assert(ps@ =~= prices(old(entries)@).take(i + 1));
        i = i + 1;
    }
    assert(rates@ =~= tshare_rates(old(entries)@));
    assert(ps@ =~= prices(old(entries)@));
    fill_gaps(&mut rates, tshare_usable, zero);
    fill_gaps(&mut ps, price_usable, zero);
    let mut out: Vec<HexJsonEntry<F>> = Vec::new();
    let mut i: usize = 0;
    while i < n
        invariant
            i <= n == entries.len() == rates.len() == ps.len(),
            entries@ == old(entries)@,
            out.len() == i,
            forall|k: int|
                0 <= k < n ==> rates@[k] == filled_value(
                    tshare_rates(old(entries)@),
                    tshare_usable@,
                    zero,
                    k,
                ),
            forall|k: int|
                0 <= k < n ==> ps@[k] == filled_value(prices(old(entries)@), price_usable@, zero, k),
            forall|k: int|
                0 <= k < i ==> {
                    let e = #[trigger] out@[k];
                    let o = old(entries)@[k];
                    &&& e.current_day == o.current_day
                    &&& e.daily_payout_hex == o.daily_payout_hex
                    &&& e.payout_per_tshare_hex == o.payout_per_tshare_hex
                    &&& e.tshare_rate_hex == rates@[k]
                    &&& e.price_pulse_x == ps@[k]
                },
        decreases n - i,
    {
        let o = &entries[i];
        out.push(
            HexJsonEntry {
                current_day: o.current_day,
                tshare_rate_hex: rates[i],
                daily_payout_hex: o.daily_payout_hex,
                payout_per_tshare_hex: o.payout_per_tshare_hex,
                price_pulse_x: ps[i],
            },
        );
        i = i + 1;
    }
    *entries = out;
}

} // verus!
