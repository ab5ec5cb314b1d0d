use vstd::prelude::*;
use vstd::string::StringExecFns;
use crate::text::str_eq;
use crate::dates::{chrono_dmy_date, stake_dates_valid_spec, validate_stake_dates};

verus! {

/// A HEX stake ("miner"): its id once assigned, the wallet it was read from (empty when
/// entered by hand), its start and end dates (`dd-mm-yyyy`), its T-shares and its
/// status (`completed` once ended). `S` is the type of the T-share amount.
#[derive(Clone, Debug)]
pub struct Miner<S> {
    pub id: Option<u64>,
    pub address: String,
    pub start_date: String,
    pub end_date: String,
    pub t_shares: S,
    pub status: Option<String>,
}

/// The ids of a list of miners.
pub open spec fn ids_of<S>(ms: Seq<Miner<S>>) -> Seq<Option<u64>> {
    ms.map_values(|m: Miner<S>| m.id)
}

/// The largest assigned id, zero when there is none.
pub open spec fn max_id(ids: Seq<Option<u64>>) -> nat
    decreases ids.len(),
{
    if ids.len() == 0 {
        0
    } else {
        let m = max_id(ids.drop_last());
        match ids.last() {
            Some(x) => if x > m {
                x as nat
            } else {
                m
            },
            None => m,
        }
    }
}

/// How many ids are still unassigned.
pub open spec fn count_unassigned(ids: Seq<Option<u64>>) -> nat
    decreases ids.len(),
{
    if ids.len() == 0 {
        0
    } else {
        count_unassigned(ids.drop_last()) + if ids.last() is None {
            1nat
        } else {
            0nat
        }
    }
}

/// The id that `normalize_miners` gives the `i`-th miner: its own id, or the next free one
/// after the largest id, counting the unassigned miners before it.
pub open spec fn assigned_id(ids: Seq<Option<u64>>, i: int) -> nat {
    match ids[i] {
        Some(x) => x as nat,
        None => max_id(ids) + 1 + count_unassigned(ids.subrange(0, i)),
    }
}

/// The id that `normalize_miners` returns as the next one to hand out.
pub open spec fn next_free_id(ids: Seq<Option<u64>>) -> nat {
    max_id(ids) + 1 + count_unassigned(ids)
}

/// The fields of two miners agree except perhaps the id.
pub open spec fn same_but_id<S>(a: Miner<S>, b: Miner<S>) -> bool {
    &&& a.address@ == b.address@
    &&& a.start_date@ == b.start_date@
    &&& a.end_date@ == b.end_date@
    &&& a.t_shares == b.t_shares
    &&& a.status == b.status
}

/// Every assigned id is at most the largest one.
pub proof fn lemma_max_id_bound(ids: Seq<Option<u64>>, i: int)
    requires
        0 <= i < ids.len(),
        ids[i] is Some,
    ensures
        ids[i]->0 <= max_id(ids),
    decreases ids.len(),
{
    if i < ids.len() - 1 {
        lemma_max_id_bound(ids.drop_last(), i);
    }
}

/// Counting unassigned ids over a longer prefix counts at least as many.
pub proof fn lemma_count_unassigned_prefix(ids: Seq<Option<u64>>, i: int, j: int)
    requires
        0 <= i < j <= ids.len(),
    ensures
        count_unassigned(ids.subrange(0, j)) >= count_unassigned(ids.subrange(0, i)) + if ids[i] is None {
            1nat
        } else {
            0nat
        },
        count_unassigned(ids.subrange(0, j)) <= count_unassigned(ids),
    decreases j - i,
{
    let sj = ids.subrange(0, j);
    assert(sj.drop_last() =~= ids.subrange(0, j - 1));
    if j == i + 1 {
        assert(sj.last() == ids[i]);
    } else {
        lemma_count_unassigned_prefix(ids, i, j - 1);
    }
    lemma_count_unassigned_upto(ids, j);
}

/// The unassigned ids of a prefix are at most those of the whole list.
pub proof fn lemma_count_unassigned_upto(ids: Seq<Option<u64>>, j: int)
    requires
        0 <= j <= ids.len(),
    ensures
        count_unassigned(ids.subrange(0, j)) <= count_unassigned(ids),
    decreases ids.len() - j,
{
    if j < ids.len() {
        lemma_count_unassigned_upto(ids, j + 1);
        let s = ids.subrange(0, j + 1);
        assert(s.drop_last() =~= ids.subrange(0, j));
    } else {
        assert(ids.subrange(0, j) =~= ids);
    }
}

/// After `normalize_miners` every id is below the next free id, and when the ids that were
/// already assigned were distinct, all ids are distinct.
pub proof fn lemma_assigned_ids_distinct(ids: Seq<Option<u64>>)
    requires
        forall|i: int, j: int|
            0 <= i < j < ids.len() && ids[i] is Some && ids[j] is Some ==> ids[i] != ids[j],
    ensures
        forall|i: int| 0 <= i < ids.len() ==> #[trigger] assigned_id(ids, i) < next_free_id(ids),
        forall|i: int, j: int|
            0 <= i < j < ids.len() ==> assigned_id(ids, i) != assigned_id(ids, j),
{
    assert forall|i: int| 0 <= i < ids.len() implies #[trigger] assigned_id(ids, i) < next_free_id(
        ids,
    ) by {
        if ids[i] is Some {
            lemma_max_id_bound(ids, i);
        } else {
            lemma_count_unassigned_prefix(ids, i, i + 1);
        }
    }
    assert forall|i: int, j: int| 0 <= i < j < ids.len() implies assigned_id(ids, i)
        != assigned_id(ids, j) by {
        lemma_count_unassigned_prefix(ids, i, j);
        if ids[i] is Some {
            lemma_max_id_bound(ids, i);
        }
        if ids[j] is Some {
            lemma_max_id_bound(ids, j);
        }
    }
}

/// Gives every miner without an id the next free id after the largest one, in order, and
/// returns the miners with the id to hand out next.
pub fn normalize_miners<S>(miners: Vec<Miner<S>>) -> (r: (Vec<Miner<S>>, u64))
    requires
        next_free_id(ids_of(miners@)) <= u64::MAX,
    ensures
        r.0.len() == miners.len(),
        forall|i: int|
            0 <= i < miners.len() ==> (#[trigger] r.0[i]).id == Some(
                assigned_id(ids_of(miners@), i) as u64,
            ) && same_but_id(r.0[i], miners[i]),
        r.1 == next_free_id(ids_of(miners@)),
{
    let ghost ids = ids_of(miners@);
    let n = miners.len();
    let mut max: u64 = 0;
    let mut k: usize = 0;
    while k < n
        invariant
            k <= n == miners.len(),
            ids == ids_of(miners@),
            max == max_id(ids.subrange(0, k as int)),
        decreases n - k,
    {
        assert(ids.subrange(0, k + 1).drop_last() =~= ids.subrange(0, k as int));
        assert(ids.subrange(0, k + 1).last() == miners[k as int].id);
        match miners[k].id {
            Some(x) => {
                if x > max {
                    max = x;
                }
            },
            None => {},
        }
        k = k + 1;
    }
    assert(ids.subrange(0, n as int) =~= ids);
    let mut next: u64 = max + 1;
    let mut out: Vec<Miner<S>> = Vec::new();
    let mut i: usize = 0;
    assert(ids.subrange(0, 0) =~= Seq::<Option<u64>>::empty());
    for m in it: miners.into_iter()
        invariant
            ids == ids_of(it.seq()),
            i == it.index(),
            i <= n,
            n == it.seq().len(),
            out.len() == i,
            max == max_id(ids),
            next == max_id(ids) + 1 + count_unassigned(ids.subrange(0, i as int)),
            next_free_id(ids) <= u64::MAX,
            forall|j: int|
                0 <= j < i ==> (#[trigger] out[j]).id == Some(assigned_id(ids, j) as u64)
                    && same_but_id(out[j], it.seq()[j]),
    {
        let ghost orig = m;
        let mut m = m;
        assert(ids[i as int] == orig.id);
        assert(ids.subrange(0, i + 1).drop_last() =~= ids.subrange(0, i as int));
        if m.id.is_none() {
            proof {
                lemma_count_unassigned_upto(ids, i + 1);
            }
            m.id = Some(next);
            next = next + 1;
        }
        out.push(m);
        i = i + 1;
    }
    proof {
        assert(ids.subrange(0, i as int) =~= ids);
    }
    (out, next)
}

/// The miners without those whose id is `id`.
pub open spec fn without_id<S>(ms: Seq<Miner<S>>, id: u64) -> Seq<Miner<S>>
    decreases ms.len(),
{
    if ms.len() == 0 {
        Seq::empty()
    } else {
        let rest = without_id(ms.drop_last(), id);
        if ms.last().id == Some(id) {
            rest
        } else {
            rest.push(ms.last())
        }
    }
}

/// Removing miners by id keeps the others in order; it never adds any.
pub proof fn lemma_without_id_len<S>(ms: Seq<Miner<S>>, id: u64)
    ensures
        without_id(ms, id).len() <= ms.len(),
        (without_id(ms, id).len() == ms.len()) <==> (forall|i: int|
            0 <= i < ms.len() ==> (#[trigger] ms[i]).id != Some(id)),
        forall|i: int|
            0 <= i < without_id(ms, id).len() ==> (#[trigger] without_id(ms, id)[i]).id != Some(
                id,
            ),
    decreases ms.len(),
{
    if ms.len() > 0 {
        let p = ms.drop_last();
        lemma_without_id_len(p, id);
        if ms.last().id == Some(id) {
            assert(ms[ms.len() - 1].id == Some(id));
        } else {
            assert(forall|i: int| 0 <= i < p.len() ==> p[i] == ms[i]);
        }
        assert((forall|i: int| 0 <= i < ms.len() ==> (#[trigger] ms[i]).id != Some(id)) <==> ((
        forall|i: int| 0 <= i < p.len() ==> (#[trigger] p[i]).id != Some(id)) && ms.last().id
            != Some(id))) by {
            assert(forall|i: int| 0 <= i < p.len() ==> p[i] == ms[i]);
        }
    }
}

/// Deletes every miner whose id is `id`; reports whether any was deleted.
pub fn delete_miner<S>(miners: &mut Vec<Miner<S>>, id: u64) -> (r: bool)
    ensures
        final(miners)@ == without_id(old(miners)@, id),
        r == (final(miners).len() != old(miners).len()),
        r == exists|i: int| 0 <= i < old(miners).len() && (#[trigger] old(miners)[i]).id == Some(id),
{
    let mut all: Vec<Miner<S>> = Vec::new();
    std::mem::swap(miners, &mut all);
    let ghost orig = all@;
    let before = all.len();
    let mut kept: Vec<Miner<S>> = Vec::new();
    assert(orig.subrange(0, 0) =~= Seq::<Miner<S>>::empty());
    for m in it: all.into_iter()
        invariant
            orig == it.seq(),
            kept@ == without_id(orig.subrange(0, it.index() as int), id),
    {
        let ghost k = it.index();
        assert(orig.subrange(0, k + 1).drop_last() =~= orig.subrange(0, k));
        assert(orig.subrange(0, k + 1).last() == m);
        if m.id != Some(id) {
            kept.push(m);
        }
    }
    assert(orig.subrange(0, orig.len() as int) =~= orig);
    let removed = kept.len() != before;
    *miners = kept;
    proof {
        lemma_without_id_len(orig, id);
    }
    removed
}

/// Marks the first miner whose id is `id` as completed; reports whether there was one.
pub fn end_miner<S>(miners: &mut Vec<Miner<S>>, id: u64) -> (r: bool)
    ensures
        r == exists|i: int| 0 <= i < old(miners).len() && (#[trigger] old(miners)[i]).id == Some(id),
        !r ==> final(miners)@ == old(miners)@,
        r ==> exists|i: int|
            0 <= i < old(miners).len() && (#[trigger] old(miners)[i]).id == Some(id) && (forall|
                j: int,
            | 0 <= j < i ==> old(miners)[j].id != Some(id)) && final(miners)@ == old(
                miners,
            )@.update(
                i,
                Miner {
                    status: Some(final(miners)@[i].status->0),
                    ..old(miners)@[i]
                },
            ) && final(miners)@[i].status is Some && final(miners)@[i].status->0@ == "completed"@,
{
    let n = miners.len();
    let mut i: usize = 0;
    while i < n
        invariant
            i <= n == miners.len(),
            miners@ == old(miners)@,
            forall|j: int| 0 <= j < i ==> old(miners)[j].id != Some(id),
        decreases n - i,
    {
        if miners[i].id == Some(id) {
            let mut m = miners.remove(i);
            m.status = Some(String::from_str("completed"));
            miners.insert(i, m);
            assert(miners@ =~= old(miners)@.update(
                i as int,
                Miner { status: Some(miners@[i as int].status->0), ..old(miners)@[i as int] },
            ));
            return true;
        }
        i = i + 1;
    }
    false
}

/// A stake entered by hand: id `id`, no wallet address, no status.
pub open spec fn manual_miner<S>(
    id: u64,
    start_date: Seq<char>,
    end_date: Seq<char>,
    t_shares: S,
    m: Miner<S>,
) -> bool {
    &&& m.id == Some(id)
    &&& m.address@.len() == 0
    &&& m.start_date@ == start_date
    &&& m.end_date@ == end_date
    &&& m.t_shares == t_shares
    &&& m.status is None
}

/// Adds a stake entered by hand when its dates are acceptable (both `dd-mm-yyyy` dates in
/// 2000 to 2100, the end not before the start); reports whether it was added. The check of
/// the T-share amount, a float, is the caller's.
pub fn add_manual_miner<S>(
    miners: &mut Vec<Miner<S>>,
    id: u64,
    start_date: String,
    end_date: String,
    t_shares: S,
) -> (r: bool)
    ensures
        r == stake_dates_valid_spec(chrono_dmy_date(start_date@), chrono_dmy_date(end_date@)),
        !r ==> final(miners)@ == old(miners)@,
        r ==> final(miners)@.len() == old(miners)@.len() + 1 && final(miners)@.drop_last()
            == old(miners)@ && manual_miner(
            id,
            start_date@,
            end_date@,
            t_shares,
            final(miners)@.last(),
        ),
{
    if !validate_stake_dates(start_date.as_str(), end_date.as_str()) {
        return false;
    }
    let ghost sd = start_date@;
    let ghost ed = end_date@;
    miners.push(
        Miner {
            id: Some(id),
            address: String::new(),
            start_date,
            end_date,
            t_shares,
            status: None,
        },
    );
    assert(miners@.drop_last() =~= old(miners)@);
    true
}

} // verus!
