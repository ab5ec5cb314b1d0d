//! History entries keyed by day: at most one entry per day, handed out in day order.
use vstd::prelude::*;
use crate::history::{copy_entry, has_day, HexJsonEntry};
use std::collections::HashMap;
use vstd::std_specs::iter::IteratorSpec;

verus! {

broadcast use vstd::std_specs::hash::group_hash_axioms;

/// Days strictly increase along the list.
pub open spec fn strictly_by_day<F>(s: Seq<HexJsonEntry<F>>) -> bool {
    forall|i: int, j: int| 0 <= i < j < s.len() ==> s[i].current_day < s[j].current_day
}

/// The entries of a list with distinct days, keyed by day.
pub open spec fn keyed_by_day<F>(s: Seq<HexJsonEntry<F>>) -> Map<u64, HexJsonEntry<F>> {
    Map::new(
        |d: u64| has_day(s, d),
        |d: u64| s[choose|i: int| 0 <= i < s.len() && (#[trigger] s[i]).current_day == d],
    )
}

/// What inserting the entries of `s` in order into a map keyed by day leaves: the last
/// entry of each day.
pub open spec fn inserted_by_day<F>(s: Seq<HexJsonEntry<F>>) -> Map<u64, HexJsonEntry<F>>
    decreases s.len(),
{
    if s.len() == 0 {
        Map::empty()
    } else {
        inserted_by_day(s.drop_last()).insert(s.last().current_day, s.last())
    }
}

/// In a list with distinct days, the entry keyed by the day of position `i` is the one at
/// `i`.
proof fn lemma_keyed_at<F>(s: Seq<HexJsonEntry<F>>, i: int)
    requires
        strictly_by_day(s),
        0 <= i < s.len(),
    ensures
        keyed_by_day(s).contains_key(s[i].current_day),
        keyed_by_day(s)[s[i].current_day] == s[i],
{
    let d = s[i].current_day;
    assert(has_day(s, d));
    let j = choose|j: int| 0 <= j < s.len() && (#[trigger] s[j]).current_day == d;
    if j != i {
        if j < i {
            assert(s[j].current_day < s[i].current_day);
        } else {
            assert(s[i].current_day < s[j].current_day);
        }
    }
}

/// Days strictly increase along the list.
pub open spec fn strictly_increasing(s: Seq<u64>) -> bool {
    forall|i: int, j: int| 0 <= i < j < s.len() ==> s[i] < s[j]
}

/// Sorts distinct days into increasing order.
fn sort_days(v: Vec<u64>) -> (r: Vec<u64>)
    requires
        v@.no_duplicates(),
    ensures
        r.len() == v.len(),
        r@.to_set() == v@.to_set(),
        strictly_increasing(r@),
{
    let mut out: Vec<u64> = Vec::new();
    let mut i: usize = 0;
    assert(v@.take(0).to_set() =~= out@.to_set());
    while i < v.len()
        invariant
            i <= v.len(),
            v@.no_duplicates(),
            out.len() == i,
            out@.to_set() == v@.take(i as int).to_set(),
            strictly_increasing(out@),
        decreases v.len() - i,
    {
        let x = v[i];
        assert(!v@.take(i as int).contains(x)) by {
            if v@.take(i as int).contains(x) {
                let j = choose|j: int| 0 <= j < i && v@.take(i as int)[j] == x;
                assert(v@[j] == v@[i as int]);
            }
        }
        assert(!out@.contains(x)) by {
            if out@.contains(x) {
                assert(out@.to_set().contains(x));
                assert(v@.take(i as int).to_set().contains(x));
            }
        }
        let mut pos: usize = 0;
        while pos < out.len() && out[pos] < x
            invariant
                pos <= out.len(),
                forall|j: int| 0 <= j < pos ==> out@[j] < x,
            decreases out.len() - pos,
        {
            pos = pos + 1;
        }
        let ghost prev = out@;
        assert(pos < prev.len() ==> prev[pos as int] > x) by {
            if pos < prev.len() {
                assert(prev[pos as int] != x);
            }
        }
        out.insert(pos, x);
        assert(out@ =~= prev.insert(pos as int, x));
        assert forall|a: int, b: int| 0 <= a < b < out@.len() implies out@[a] < out@[b] by {
            if b < pos {
                assert(out@[a] == prev[a] && out@[b] == prev[b]);
            } else if b == pos {
                assert(out@[a] == prev[a]);
            } else if a < pos {
                assert(out@[a] == prev[a] && out@[b] == prev[b - 1]);
                assert(prev[pos as int] > x);
                if b - 1 > pos {
                    assert(prev[pos as int] < prev[b - 1]);
                }
            } else if a == pos {
                assert(out@[b] == prev[b - 1]);
                if b - 1 > pos {
                    assert(prev[pos as int] < prev[b - 1]);
                }
            } else {
                assert(out@[a] == prev[a - 1] && out@[b] == prev[b - 1]);
            }
        }
        assert(v@.take(i + 1) =~= v@.take(i as int).push(x));
        proof {
            v@.take(i as int).lemma_push_to_set_commute(x);
        }
        assert(out@.to_set() =~= prev.to_set().insert(x)) by {
            assert forall|e: u64| out@.to_set().contains(e) implies prev.to_set().insert(x).contains(e) by {
                let j = choose|j: int| 0 <= j < out@.len() && out@[j] == e;
                if j < pos {
                    assert(prev[j] == e);
                } else if j > pos {
                    assert(prev[j - 1] == e);
                }
            }
            assert forall|e: u64| prev.to_set().insert(x).contains(e) implies out@.to_set().contains(e) by {
                if e == x {
                    assert(out@[pos as int] == x);
                } else {
                    let j = choose|j: int| 0 <= j < prev.len() && prev[j] == e;
                    if j < pos {
                        assert(out@[j] == e);
                    } else {
                        assert(out@[j + 1] == e);
                    }
                }
            }
        }
        i = i + 1;
    }
    assert(v@.take(v.len() as int) =~= v@);
    out
}

/// History entries with at most one entry per day: a map from day to entry.
pub struct DayTable<F> {
    by_day: HashMap<u64, HexJsonEntry<F>>,
}

impl<F> View for DayTable<F> {
    type V = Map<u64, HexJsonEntry<F>>;

    closed spec fn view(&self) -> Map<u64, HexJsonEntry<F>> {
        self.by_day@
    }
}

impl<F> DayTable<F> {
    /// The table's invariant: each entry is held under its own day.
    pub closed spec fn wf(&self) -> bool {
        &&& self.by_day@.dom().finite()
        &&& forall|d: u64| #[trigger] self.by_day@.contains_key(d) ==> self.by_day@[d].current_day == d
    }

    /// An empty table.
    pub fn new() -> (r: Self)
        ensures
            r.wf(),
            r@ == Map::<u64, HexJsonEntry<F>>::empty(),
    {
        DayTable { by_day: HashMap::new() }
    }

    /// How many days are held.
    pub fn len(&self) -> (r: usize)
        requires
            self.wf(),
        ensures
            r == self@.dom().len(),
    {
        self.by_day.len()
    }

    /// Whether an entry for `day` is held.
    pub fn contains_day(&self, day: u64) -> (r: bool)
        requires
            self.wf(),
        ensures
            r == self@.contains_key(day),
    {
        self.by_day.contains_key(&day)
    }

    /// Stores `entry` as the entry of its day, replacing one held for that day.
    pub fn insert(&mut self, entry: HexJsonEntry<F>)
        requires
            old(self).wf(),
        ensures
            final(self).wf(),
            final(self)@ == old(self)@.insert(entry.current_day, entry),
    {
        let d = entry.current_day;
        self.by_day.insert(d, entry);
        assert(self.by_day@.dom() =~= old(self).by_day@.dom().insert(d));
    }

    /// A table of the given entries, the last one of each day kept.
    pub fn from_entries(entries: Vec<HexJsonEntry<F>>) -> (r: Self)
        ensures
            r.wf(),
            r@ == inserted_by_day(entries@),
    {
        let mut t = DayTable::new();
        let mut src = entries;
        let ghost all = src@;
        let ghost mut k: int = 0;
        while src.len() > 0
            invariant
                t.wf(),
                0 <= k <= all.len(),
                src@ == all.skip(k),
                t@ == inserted_by_day(all.take(k)),
            decreases src.len(),
        {
            let e = src.remove(0);
            assert(e == all[k]);
            assert(all.take(k + 1).drop_last() =~= all.take(k));
            assert(src@ =~= all.skip(k + 1));
            t.insert(e);
            proof {
                k = k + 1;
            }
        }
        assert(all.take(k) =~= all);
        t
    }

    /// The held days in increasing order.
    fn sorted_days(&self) -> (r: Vec<u64>)
        requires
            self.wf(),
        ensures
            r@.to_set() == self@.dom(),
            r.len() == self@.dom().len(),
            strictly_increasing(r@),
    {
        let mut days: Vec<u64> = Vec::new();
        let ghost full = vstd::std_specs::hash::spec_keys_iter(&self.by_day).remaining().unref();
        for k in it: self.by_day.keys()
            invariant
                days@ == it.seq().take(it.index() as int).map_values(|r: &u64| *r),
                it.seq().map_values(|r: &u64| *r) == full,
            ensures
                days@ == full,
        {
            assert(it.seq().take(it.index() + 1).map_values(|r: &u64| *r) =~= days@.push(*k));
            days.push(*k);
        }
        assert(days@.to_set() == self@.dom());
        assert(days@.no_duplicates());
        proof {
            days@.unique_seq_to_set();
        }
        sort_days(days)
    }
}

/// Entries held under increasing days, each the table's entry of its day, key the table.
proof fn lemma_listed_by_days<F>(m: Map<u64, HexJsonEntry<F>>, days: Seq<u64>, r: Seq<HexJsonEntry<F>>)
    requires
        forall|d: u64| #[trigger] m.contains_key(d) ==> m[d].current_day == d,
        days.to_set() == m.dom(),
        strictly_increasing(days),
        r.len() == days.len(),
        forall|j: int| 0 <= j < r.len() ==> #[trigger] r[j] == m[days[j]],
    ensures
        strictly_by_day(r),
        keyed_by_day(r) == m,
{
    assert forall|j: int| 0 <= j < r.len() implies #[trigger] r[j].current_day == days[j] by {
        assert(days.to_set().contains(days[j]));
        assert(m.contains_key(days[j]));
    }
    assert forall|i: int, j: int| 0 <= i < j < r.len() implies r[i].current_day < r[j].current_day by {
        assert(r[i].current_day == days[i]);
        assert(r[j].current_day == days[j]);
    }
    assert forall|d: u64| #[trigger] keyed_by_day(r).contains_key(d) == m.contains_key(d) by {
        if has_day(r, d) {
            let j = choose|j: int| 0 <= j < r.len() && (#[trigger] r[j]).current_day == d;
            assert(r[j].current_day == days[j]);
            assert(days.to_set().contains(d));
        }
        if m.contains_key(d) {
            assert(days.to_set().contains(d));
            let j = choose|j: int| 0 <= j < days.len() && days[j] == d;
            assert(r[j].current_day == days[j]);
            assert(has_day(r, d));
        }
    }
    assert forall|d: u64| #[trigger] keyed_by_day(r).contains_key(d) implies keyed_by_day(r)[d] == m[d] by {
        let j = choose|j: int| 0 <= j < r.len() && (#[trigger] r[j]).current_day == d;
        lemma_keyed_at(r, j);
        assert(r[j].current_day == days[j]);
    }
    assert(keyed_by_day(r) =~= m);
}

impl<F> DayTable<F> {
    /// The held entries in day order.
    pub fn into_vec(self) -> (r: Vec<HexJsonEntry<F>>)
        requires
            self.wf(),
        ensures
            strictly_by_day(r@),
            keyed_by_day(r@) == self@,
    {
        let days = self.sorted_days();
        let ghost m = self@;
        let mut by_day = self.by_day;
        let mut out: Vec<HexJsonEntry<F>> = Vec::new();
        let mut i: usize = 0;
        while i < days.len()
            invariant
                i <= days.len(),
                strictly_increasing(days@),
                days@.to_set() == m.dom(),
                out.len() == i,
                forall|j: int| 0 <= j < i ==> #[trigger] out@[j] == m[days@[j]],
                forall|j: int| i <= j < days.len() ==> #[trigger] by_day@.contains_key(days@[j]),
                forall|d: u64| #[trigger] by_day@.contains_key(d) ==> by_day@[d] == m[d],
            decreases days.len() - i,
        {
            let d = days[i];
            let ghost before = by_day@;
            match by_day.remove(&d) {
                Some(e) => {
                    out.push(e);
                },
                None => {
                    assert(before.contains_key(d));
                },
            }
            proof {
                assert forall|j: int| i + 1 <= j < days.len() implies #[trigger] by_day@.contains_key(days@[j]) by {
                    assert(days@[j] != d);
                    assert(before.contains_key(days@[j]));
                }
                assert forall|k: u64| #[trigger] by_day@.contains_key(k) implies by_day@[k] == m[k] by {
                    assert(before.contains_key(k));
                }
            }
            i = i + 1;
        }
        proof {
            lemma_listed_by_days(m, days@, out@);
        }
        out
    }
}

impl<F: Copy> DayTable<F> {
    /// A copy of the held entries in day order.
    pub fn to_vec(&self) -> (r: Vec<HexJsonEntry<F>>)
        requires
            self.wf(),
        ensures
            strictly_by_day(r@),
            keyed_by_day(r@) == self@,
    {
        let days = self.sorted_days();
        let mut out: Vec<HexJsonEntry<F>> = Vec::new();
        let mut i: usize = 0;
        while i < days.len()
            invariant
                i <= days.len(),
                self.wf(),
                strictly_increasing(days@),
                days@.to_set() == self@.dom(),
                out.len() == i,
                forall|j: int| 0 <= j < i ==> #[trigger] out@[j] == self@[days@[j]],
            decreases days.len() - i,
        {
            let d = days[i];
            assert(days@.to_set().contains(d));
            match self.by_day.get(&d) {
                Some(e) => {
                    out.push(copy_entry(e));
                },
                None => {
                    assert(false);
                },
            }
            i = i + 1;
        }
        proof {
            lemma_listed_by_days(self@, days@, out@);
        }
        out
    }
}

} // verus!
