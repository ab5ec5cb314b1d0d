use vstd::prelude::*;
use vstd::multiset::Multiset;
use std::collections::HashSet;

verus! {

broadcast use {vstd::std_specs::hash::group_hash_axioms, vstd::seq_lib::group_to_multiset_ensures};

/// One recorded HEX day: the day number and, of type `F`, the T-share rate, the day's
/// payout, the payout per T-share and the price.
#[derive(Clone, Debug)]
pub struct HexJsonEntry<F> {
    pub current_day: u64,
    pub tshare_rate_hex: F,
    pub daily_payout_hex: F,
    pub payout_per_tshare_hex: F,
    pub price_pulse_x: F,
}

/// `e` goes into the day-sorted list `s` after every entry whose day is not later.
pub open spec fn insert_by_day<F>(s: Seq<HexJsonEntry<F>>, e: HexJsonEntry<F>) -> Seq<
    HexJsonEntry<F>,
>
    decreases s.len(),
{
    if s.len() == 0 {
        seq![e]
    } else if s.last().current_day <= e.current_day {
        s.push(e)
    } else {
        insert_by_day(s.drop_last(), e).push(s.last())
    }
}

/// The entries sorted by day, entries of the same day in their original order: what a
/// stable sort by day gives.
pub open spec fn sort_by_day_spec<F>(s: Seq<HexJsonEntry<F>>) -> Seq<HexJsonEntry<F>>
    decreases s.len(),
{
    if s.len() == 0 {
        Seq::empty()
    } else {
        insert_by_day(sort_by_day_spec(s.drop_last()), s.last())
    }
}

/// Days never decrease along the list.
pub open spec fn sorted_by_day<F>(s: Seq<HexJsonEntry<F>>) -> bool {
    forall|i: int, j: int| 0 <= i <= j < s.len() ==> s[i].current_day <= s[j].current_day
}

/// Where `insert_by_day` puts `e`: after the last entry whose day is not later.
pub open spec fn insert_position<F>(s: Seq<HexJsonEntry<F>>, e: HexJsonEntry<F>) -> int
    decreases s.len(),
{
    if s.len() == 0 {
        0
    } else if s.last().current_day <= e.current_day {
        s.len() as int
    } else {
        insert_position(s.drop_last(), e)
    }
}

proof fn lemma_insert_by_day_shape<F>(s: Seq<HexJsonEntry<F>>, e: HexJsonEntry<F>)
    requires
        sorted_by_day(s),
    ensures
        0 <= insert_position(s, e) <= s.len(),
        insert_by_day(s, e) == s.subrange(0, insert_position(s, e)).push(e) + s.subrange(
            insert_position(s, e),
            s.len() as int,
        ),
        forall|i: int| 0 <= i < insert_position(s, e) ==> s[i].current_day <= e.current_day,
        forall|i: int|
            insert_position(s, e) <= i < s.len() ==> s[i].current_day > e.current_day,
    decreases s.len(),
{
    if s.len() == 0 {
        assert(insert_by_day(s, e) =~= s.subrange(0, 0).push(e) + s.subrange(0, 0));
    } else if s.last().current_day <= e.current_day {
        assert(insert_by_day(s, e) =~= s.subrange(0, s.len() as int).push(e) + s.subrange(
            s.len() as int,
            s.len() as int,
        ));
        assert forall|i: int| 0 <= i < s.len() implies s[i].current_day <= e.current_day by {
            assert(s[i].current_day <= s[s.len() - 1].current_day);
        }
    } else {
        let p = s.drop_last();
        assert(sorted_by_day(p)) by {
            assert forall|i: int, j: int| 0 <= i <= j < p.len() implies p[i].current_day
                <= p[j].current_day by {
                assert(p[i] == s[i] && p[j] == s[j]);
            }
        }
        lemma_insert_by_day_shape(p, e);
        let k = insert_position(p, e);
        assert(k == insert_position(s, e));
        assert forall|i: int| 0 <= i < k implies s[i].current_day <= e.current_day by {
            assert(p[i] == s[i]);
        }
        assert forall|i: int| k <= i < s.len() implies s[i].current_day > e.current_day by {
            if i < s.len() - 1 {
                assert(p[i] == s[i]);
            }
        }
        assert(insert_by_day(s, e) =~= s.subrange(0, k).push(e) + s.subrange(k, s.len() as int));
    }
}

/// Inserting by day keeps a sorted list sorted, holding the same entries and `e`.
pub proof fn lemma_insert_by_day<F>(s: Seq<HexJsonEntry<F>>, e: HexJsonEntry<F>)
    requires
        sorted_by_day(s),
    ensures
        sorted_by_day(insert_by_day(s, e)),
        insert_by_day(s, e).to_multiset() == s.to_multiset().insert(e),
        insert_by_day(s, e).len() == s.len() + 1,
    decreases s.len(),
{
    lemma_insert_by_day_shape(s, e);
    let k = insert_position(s, e);
    let r = insert_by_day(s, e);
    assert forall|i: int, j: int| 0 <= i <= j < r.len() implies r[i].current_day
        <= r[j].current_day by {
        if i < k && j > k {
            assert(r[j] == s[j - 1]);
        } else if i < k && j == k {
        } else if i == k && j > k {
            assert(r[j] == s[j - 1]);
        } else if i > k {
            assert(r[i] == s[i - 1]);
            assert(r[j] == s[j - 1]);
        }
    }
    if s.len() == 0 {
        assert(r =~= seq![e]);
        assert(s.to_multiset() =~= Multiset::<HexJsonEntry<F>>::empty());
        assert(seq![e] =~= Seq::<HexJsonEntry<F>>::empty().push(e));
    } else if s.last().current_day <= e.current_day {
    } else {
        let p = s.drop_last();
        assert(sorted_by_day(p));
        lemma_insert_by_day(p, e);
        assert(s =~= p.push(s.last()));
        assert(p.push(s.last()).to_multiset() == p.to_multiset().insert(s.last()));
        assert(insert_by_day(p, e).push(s.last()).to_multiset() == insert_by_day(
            p,
            e,
        ).to_multiset().insert(s.last()));
        assert(r.to_multiset() =~= s.to_multiset().insert(e));
    }
}

/// The stable sort by day is sorted and holds the same entries.
pub proof fn lemma_sort_by_day<F>(s: Seq<HexJsonEntry<F>>)
    ensures
        sorted_by_day(sort_by_day_spec(s)),
        sort_by_day_spec(s).to_multiset() == s.to_multiset(),
        sort_by_day_spec(s).len() == s.len(),
    decreases s.len(),
{
    if s.len() == 0 {
        assert(sort_by_day_spec(s) =~= Seq::<HexJsonEntry<F>>::empty());
    } else {
        lemma_sort_by_day(s.drop_last());
        lemma_insert_by_day(sort_by_day_spec(s.drop_last()), s.last());
        assert(s =~= s.drop_last().push(s.last()));
    }
}

/// Sorts the entries by day, keeping entries of the same day in their order (a stable
/// sort, as `sort_by_key` on the day).
pub fn sort_by_day<F>(entries: Vec<HexJsonEntry<F>>) -> (r: Vec<HexJsonEntry<F>>)
    ensures
        r@ == sort_by_day_spec(entries@),
{
    let ghost orig = entries@;
    let mut sorted: Vec<HexJsonEntry<F>> = Vec::new();
    assert(orig.subrange(0, 0) =~= Seq::<HexJsonEntry<F>>::empty());
    for e in it: entries.into_iter()
        invariant
            orig == it.seq(),
            sorted@ == sort_by_day_spec(orig.subrange(0, it.index() as int)),
    {
        let ghost k = it.index();
        let ghost prev = sorted@;
        proof {
            assert(orig.subrange(0, k + 1).drop_last() =~= orig.subrange(0, k));
            assert(orig.subrange(0, k + 1).last() == e);
            lemma_sort_by_day(orig.subrange(0, k));
            lemma_insert_by_day_shape(prev, e);
        }
        let mut pos = sorted.len();
        while pos > 0 && sorted[pos - 1].current_day > e.current_day
            invariant
                sorted@ == prev,
                sorted_by_day(prev),
                0 <= pos <= prev.len(),
                0 <= insert_position(prev, e) <= prev.len(),
                forall|i: int|
                    0 <= i < insert_position(prev, e) ==> prev[i].current_day <= e.current_day,
                pos >= insert_position(prev, e),
                forall|i: int| pos <= i < prev.len() ==> prev[i].current_day > e.current_day,
            decreases pos,
        {
            pos = pos - 1;
        }
        assert(pos == insert_position(prev, e)) by {
            if pos > insert_position(prev, e) {
                assert(prev[pos - 1].current_day <= e.current_day);
            }
        }
        sorted.insert(pos, e);
        assert(sorted@ =~= insert_by_day(prev, e));
    }
    assert(orig.subrange(0, orig.len() as int) =~= orig);
    sorted
}

/// The days that a list of entries holds.
pub open spec fn days_of<F>(s: Seq<HexJsonEntry<F>>) -> Set<u64> {
    s.map_values(|e: HexJsonEntry<F>| e.current_day).to_set()
}

/// Whether some entry is for `day`.
pub open spec fn has_day<F>(s: Seq<HexJsonEntry<F>>, day: u64) -> bool {
    exists|i: int| 0 <= i < s.len() && (#[trigger] s[i]).current_day == day
}

/// Records the entry of a new day: refused (and nothing changes) when the day is already
/// recorded; otherwise the entry is added and the list sorted by day, as a stable sort
/// of the list with the entry at its end.
pub fn record_day<F>(entries: &mut Vec<HexJsonEntry<F>>, entry: HexJsonEntry<F>) -> (r: bool)
    ensures
        r == !has_day(old(entries)@, entry.current_day),
        !r ==> final(entries)@ == old(entries)@,
        r ==> final(entries)@ == sort_by_day_spec(old(entries)@.push(entry)),
{
    let n = entries.len();
    let mut i: usize = 0;
    while i < n
        invariant
            i <= n == entries.len(),
            entries@ == old(entries)@,
            forall|j: int| 0 <= j < i ==> entries@[j].current_day != entry.current_day,
        decreases n - i,
    {
        if entries[i].current_day == entry.current_day {
            assert(has_day(old(entries)@, entry.current_day)) by {
                assert(old(entries)@[i as int].current_day == entry.current_day);
            }
            return false;
        }
        i = i + 1;
    }
    let mut all: Vec<HexJsonEntry<F>> = Vec::new();
    std::mem::swap(entries, &mut all);
    all.push(entry);
    let sorted = sort_by_day(all);
    *entries = sorted;
    true
}

/// Days strictly increase along the list: each day is recorded once, in order.
pub open spec fn strictly_sorted_by_day<F>(s: Seq<HexJsonEntry<F>>) -> bool {
    forall|i: int, j: int| 0 <= i < j < s.len() ==> s[i].current_day < s[j].current_day
}

/// Sorting a list that is already in day order leaves it as it is.
pub proof fn lemma_sort_sorted_is_identity<F>(s: Seq<HexJsonEntry<F>>)
    requires
        sorted_by_day(s),
    ensures
        sort_by_day_spec(s) == s,
    decreases s.len(),
{
    if s.len() > 0 {
        let p = s.drop_last();
        assert(sorted_by_day(p)) by {
            assert forall|i: int, j: int| 0 <= i <= j < p.len() implies p[i].current_day
                <= p[j].current_day by {
                assert(p[i] == s[i] && p[j] == s[j]);
            }
        }
        lemma_sort_sorted_is_identity(p);
        if p.len() > 0 {
            assert(p.last() == s[s.len() - 2]);
        }
        assert(s =~= p.push(s.last()));
    }
}

/// Recording days keeps a history with each day once, in day order: a new day is added
/// in its place and a day already there is refused. So the history never holds a day
/// twice, whatever is recorded.
pub proof fn lemma_record_day_keeps_days_unique<F>(s: Seq<HexJsonEntry<F>>, e: HexJsonEntry<F>)
    requires
        strictly_sorted_by_day(s),
        !has_day(s, e.current_day),
    ensures
        strictly_sorted_by_day(sort_by_day_spec(s.push(e))),
        has_day(sort_by_day_spec(s.push(e)), e.current_day),
        forall|d: u64| has_day(s, d) ==> has_day(sort_by_day_spec(s.push(e)), d),
        sort_by_day_spec(s.push(e)).len() == s.len() + 1,
{
    lemma_sort_sorted_is_identity(s);
    assert(s.push(e).drop_last() =~= s);
    lemma_insert_by_day_shape(s, e);
    let k = insert_position(s, e);
    let r = sort_by_day_spec(s.push(e));
    assert(r == insert_by_day(s, e));
    assert(r[k] == e);
    assert forall|i: int, j: int| 0 <= i < j < r.len() implies r[i].current_day
        < r[j].current_day by {
        if i < k && j > k {
            assert(r[i] == s[i] && r[j] == s[j - 1]);
        } else if i < k && j == k {
            assert(r[i] == s[i]);
            assert(s[i].current_day != e.current_day);
        } else if i == k && j > k {
            assert(r[j] == s[j - 1]);
        } else if i > k {
            assert(r[i] == s[i - 1] && r[j] == s[j - 1]);
        } else {
            assert(r[i] == s[i] && r[j] == s[j]);
        }
    }
    assert forall|d: u64| has_day(s, d) implies has_day(r, d) by {
        let i = choose|i: int| 0 <= i < s.len() && (#[trigger] s[i]).current_day == d;
        if i < k {
            assert(r[i] == s[i]);
        } else {
            assert(r[i + 1] == s[i]);
        }
    }
}

/// The entries from day `from` on, in order.
pub open spec fn from_day_spec<F>(s: Seq<HexJsonEntry<F>>, from: u64) -> Seq<HexJsonEntry<F>>
    decreases s.len(),
{
    if s.len() == 0 {
        Seq::empty()
    } else {
        let rest = from_day_spec(s.drop_last(), from);
        if s.last().current_day >= from {
            rest.push(s.last())
        } else {
            rest
        }
    }
}

/// A copy of an entry.
pub fn copy_entry<F: Copy>(e: &HexJsonEntry<F>) -> (r: HexJsonEntry<F>)
    ensures
        r == *e,
{
    HexJsonEntry {
        current_day: e.current_day,
        tshare_rate_hex: e.tshare_rate_hex,
        daily_payout_hex: e.daily_payout_hex,
        payout_per_tshare_hex: e.payout_per_tshare_hex,
        price_pulse_x: e.price_pulse_x,
    }
}

/// The first `limit` entries whose day is `from` or later, in order: what a filtered
/// history request answers.
pub fn select_from_day<F: Copy>(entries: &Vec<HexJsonEntry<F>>, from: u64, limit: usize) -> (r: Vec<
    HexJsonEntry<F>,
>)
    ensures
        r@ == from_day_spec(entries@, from).take(
            if limit < from_day_spec(entries@, from).len() {
                limit as int
            } else {
                from_day_spec(entries@, from).len() as int
            },
        ),
{
    let mut out: Vec<HexJsonEntry<F>> = Vec::new();
    let mut i: usize = 0;
    let ghost all = from_day_spec(entries@, from);
    assert(entries@.subrange(0, 0) =~= Seq::<HexJsonEntry<F>>::empty());
    while i < entries.len() && out.len() < limit
        invariant
            i <= entries.len(),
            out.len() <= limit,
            out@ == from_day_spec(entries@.subrange(0, i as int), from),
        decreases entries.len() - i,
    {
        assert(entries@.subrange(0, i + 1).drop_last() =~= entries@.subrange(0, i as int));
        if entries[i].current_day >= from {
            out.push(copy_entry(&entries[i]));
        }
        i = i + 1;
    }
    proof {
        lemma_from_day_prefix(entries@, from, i as int);
        if i == entries.len() {
            assert(entries@.subrange(0, i as int) =~= entries@);
            assert(out@.take(out@.len() as int) =~= out@);
        } else {
            assert(out@ =~= all.take(limit as int));
        }
    }
    out
}

/// The entries from day `from` on of a prefix are a prefix of those of the whole list.
pub proof fn lemma_from_day_prefix<F>(s: Seq<HexJsonEntry<F>>, from: u64, k: int)
    requires
        0 <= k <= s.len(),
    ensures
        from_day_spec(s.subrange(0, k), from).len() <= from_day_spec(s, from).len(),
        from_day_spec(s.subrange(0, k), from) == from_day_spec(s, from).take(
            from_day_spec(s.subrange(0, k), from).len() as int,
        ),
    decreases s.len() - k,
{
    if k == s.len() {
        assert(s.subrange(0, k) =~= s);
        assert(from_day_spec(s, from).take(from_day_spec(s, from).len() as int) =~= from_day_spec(
            s,
            from,
        ));
    } else {
        lemma_from_day_prefix(s, from, k + 1);
        assert(s.subrange(0, k + 1).drop_last() =~= s.subrange(0, k));
        let a = from_day_spec(s.subrange(0, k), from);
        let b = from_day_spec(s.subrange(0, k + 1), from);
        assert(a == b.take(a.len() as int)) by {
            if b.len() > a.len() {
                assert(b =~= a.push(b.last()));
                assert(b.take(a.len() as int) =~= a);
            } else {
                assert(b.take(a.len() as int) =~= b);
            }
        }
        assert(a =~= from_day_spec(s, from).take(a.len() as int));
    }
}

/// The days in `[start, end)` that `known` lacks, in increasing order.
pub open spec fn missing_days_spec(known: Set<u64>, start: u64, end: u64) -> Seq<u64>
    decreases end - start,
{
    if end <= start {
        Seq::empty()
    } else {
        let prev = missing_days_spec(known, start, (end - 1) as u64);
        if known.contains((end - 1) as u64) {
            prev
        } else {
            prev.push((end - 1) as u64)
        }
    }
}

/// The days in `[start, end)` for which no entry is recorded, in increasing order: the days
/// a backfill still has to fetch.
pub fn missing_days<F>(entries: &Vec<HexJsonEntry<F>>, start: u64, end: u64) -> (r: Vec<u64>)
    ensures
        r@ == missing_days_spec(days_of(entries@), start, end),
{
    let mut known: HashSet<u64> = HashSet::new();
    let mut i: usize = 0;
    while i < entries.len()
        invariant
            i <= entries.len(),
            known@ == days_of(entries@.subrange(0, i as int)),
        decreases entries.len() - i,
    {
        proof {
            let a = entries@.subrange(0, i as int);
            let b = entries@.subrange(0, i + 1);
            assert(b =~= a.push(entries@[i as int]));
            assert(b.map_values(|e: HexJsonEntry<F>| e.current_day) =~= a.map_values(
                |e: HexJsonEntry<F>| e.current_day,
            ).push(entries@[i as int].current_day));
            a.map_values(|e: HexJsonEntry<F>| e.current_day).lemma_push_to_set_commute(
                entries@[i as int].current_day,
            );
        }
        known.insert(entries[i].current_day);
        i = i + 1;
    }
    assert(entries@.subrange(0, entries.len() as int) =~= entries@);
    let mut out: Vec<u64> = Vec::new();
    if end <= start {
        return out;
    }
    let mut d = start;
    while d < end
        invariant
            start <= d <= end,
            known@ == days_of(entries@),
            out@ == missing_days_spec(days_of(entries@), start, d),
        decreases end - d,
    {
        if !known.contains(&d) {
            out.push(d);
        }
        d = d + 1;
    }
    out
}

/// Some day in `[start, end)` has no entry.
pub open spec fn lacks_day_in<F>(s: Seq<HexJsonEntry<F>>, start: u64, end: u64) -> bool {
    exists|d: u64| start <= d < end && !(#[trigger] days_of(s).contains(d))
}

/// The missing days are listed exactly when some day of the range is missing.
pub proof fn lemma_missing_days_nonempty(known: Set<u64>, start: u64, end: u64)
    ensures
        missing_days_spec(known, start, end).len() > 0 <==> exists|d: u64|
            start <= d < end && !(#[trigger] known.contains(d)),
    decreases end - start,
{
    if end > start {
        lemma_missing_days_nonempty(known, start, (end - 1) as u64);
        if missing_days_spec(known, start, end).len() == 0 {
            assert forall|d: u64| start <= d < end implies #[trigger] known.contains(d) by {
                if d < end - 1 {
                    if !known.contains(d) {
                        assert(start <= d < end - 1 && !known.contains(d));
                    }
                }
            }
        } else if !known.contains((end - 1) as u64) {
            let last = (end - 1) as u64;
            assert(start <= last < end && !known.contains(last));
        } else {
            let d = choose|d: u64| start <= d < end - 1 && !(#[trigger] known.contains(d));
            assert(start <= d < end && !known.contains(d));
        }
    }
}

/// Whether some day in `[start, end)` has no entry.
pub fn has_missing_days<F>(entries: &Vec<HexJsonEntry<F>>, start: u64, end: u64) -> (r: bool)
    ensures
        r == lacks_day_in(entries@, start, end),
{
    let m = missing_days(entries, start, end);
    proof {
        lemma_missing_days_nonempty(days_of(entries@), start, end);
    }
    m.len() > 0
}

/// Whether the server catches up on its history at start: with nothing stored it builds
/// it; otherwise it does when the day count could be read and a day after day zero before
/// it is missing.
pub fn server_needs_backfill<F>(entries: &Vec<HexJsonEntry<F>>, day_count: Option<u64>) -> (r:
    bool)
    ensures
        r == (entries.len() == 0 || (day_count matches Some(c) && lacks_day_in(
            entries@,
            1,
            c,
        ))),
{
    if entries.len() == 0 {
        return true;
    }
    match day_count {
        Some(c) => has_missing_days(entries, 1, c),
        None => false,
    }
}

/// Whether the device backfills at start: when a day after day zero before the day count
/// is missing, when the day count could not be read but something is stored, or when
/// nothing is stored.
pub fn device_needs_backfill<F>(entries: &Vec<HexJsonEntry<F>>, day_count: Option<u64>) -> (r:
    bool)
    ensures
        r == (match day_count {
            Some(c) => lacks_day_in(entries@, 1, c),
            None => entries.len() > 0,
        } || entries.len() == 0),
{
    let need = match day_count {
        Some(c) => has_missing_days(entries, 1, c),
        None => entries.len() > 0,
    };
    need || entries.len() == 0
}

} // verus!
