use vstd::prelude::*;
use crate::miners::Miner;
use crate::text::{chars_of, str_eq, string_of, trim_bounds, trim_spec};

verus! {

/// The pieces of a text between its commas (one piece more than there are commas).
pub open spec fn split_commas(cs: Seq<char>) -> Seq<Seq<char>>
    decreases cs.len(),
{
    if cs.len() == 0 {
        seq![Seq::empty()]
    } else {
        let prev = split_commas(cs.drop_last());
        if cs.last() == ',' {
            prev.push(Seq::empty())
        } else {
            prev.update(prev.len() - 1, prev.last().push(cs.last()))
        }
    }
}

/// The pieces, each trimmed, the empty ones dropped.
pub open spec fn trimmed_nonempty(pieces: Seq<Seq<char>>) -> Seq<Seq<char>>
    decreases pieces.len(),
{
    if pieces.len() == 0 {
        Seq::empty()
    } else {
        let rest = trimmed_nonempty(pieces.drop_last());
        let t = trim_spec(pieces.last());
        if t.len() > 0 {
            rest.push(t)
        } else {
            rest
        }
    }
}

/// The wallet addresses that a comma-separated setting names.
pub open spec fn wallet_addresses_spec(cs: Seq<char>) -> Seq<Seq<char>> {
    trimmed_nonempty(split_commas(cs))
}

proof fn lemma_split_commas_nonempty(cs: Seq<char>)
    ensures
        split_commas(cs).len() >= 1,
    decreases cs.len(),
{
    if cs.len() > 0 {
        lemma_split_commas_nonempty(cs.drop_last());
    }
}

/// A text without a comma is one piece.
proof fn lemma_split_commas_no_comma(cs: Seq<char>)
    requires
        forall|i: int| 0 <= i < cs.len() ==> cs[i] != ',',
    ensures
        split_commas(cs) == seq![cs],
    decreases cs.len(),
{
    if cs.len() > 0 {
        lemma_split_commas_no_comma(cs.drop_last());
        assert(cs.drop_last().push(cs.last()) =~= cs);
        assert(seq![cs.drop_last()].update(0, cs.drop_last().push(cs.last())) =~= seq![cs]);
    } else {
        assert(cs =~= Seq::<char>::empty());
    }
}

/// Splitting at a comma joins the pieces of both sides.
proof fn lemma_split_commas_join(a: Seq<char>, b: Seq<char>)
    ensures
        split_commas(a + seq![','] + b) == split_commas(a) + split_commas(b),
    decreases b.len(),
{
    let x = a + seq![','] + b;
    if b.len() == 0 {
        assert(x =~= a.push(','));
        assert(x.drop_last() =~= a);
        assert(split_commas(b) =~= seq![Seq::<char>::empty()]);
        assert(split_commas(a).push(Seq::<char>::empty()) =~= split_commas(a) + split_commas(b));
    } else {
        let b1 = b.drop_last();
        lemma_split_commas_join(a, b1);
        assert(x.drop_last() =~= a + seq![','] + b1);
        assert(x.last() == b.last());
        let pa = split_commas(a);
        let pb = split_commas(b1);
        lemma_split_commas_nonempty(b1);
        if b.last() == ',' {
            assert((pa + pb).push(Seq::<char>::empty()) =~= pa + pb.push(Seq::<char>::empty()));
        } else {
            let prev = pa + pb;
            assert(prev.last() == pb.last());
            assert(prev.update(prev.len() - 1, prev.last().push(b.last())) =~= pa + pb.update(
                pb.len() - 1,
                pb.last().push(b.last()),
            ));
        }
    }
}

/// Keeping the trimmed non-empty pieces of two lists joined is joining what each keeps.
proof fn lemma_trimmed_nonempty_join(p: Seq<Seq<char>>, q: Seq<Seq<char>>)
    ensures
        trimmed_nonempty(p + q) == trimmed_nonempty(p) + trimmed_nonempty(q),
    decreases q.len(),
{
    if q.len() == 0 {
        assert(p + q =~= p);
        assert(trimmed_nonempty(p) + trimmed_nonempty(q) =~= trimmed_nonempty(p));
    } else {
        lemma_trimmed_nonempty_join(p, q.drop_last());
        assert((p + q).drop_last() =~= p + q.drop_last());
        assert((p + q).last() == q.last());
        let t = trim_spec(q.last());
        if t.len() > 0 {
            assert((trimmed_nonempty(p) + trimmed_nonempty(q.drop_last())).push(t)
                =~= trimmed_nonempty(p) + trimmed_nonempty(q.drop_last()).push(t));
        }
    }
}

/// A list without a comma names at most one address: the text trimmed, when that is not
/// empty.
pub proof fn lemma_wallet_addresses_single(cs: Seq<char>)
    requires
        forall|i: int| 0 <= i < cs.len() ==> cs[i] != ',',
    ensures
        trim_spec(cs).len() > 0 ==> wallet_addresses_spec(cs) == seq![trim_spec(cs)],
        trim_spec(cs).len() == 0 ==> wallet_addresses_spec(cs).len() == 0,
{
    lemma_split_commas_no_comma(cs);
    let p = seq![cs];
    assert(p.drop_last() =~= Seq::<Seq<char>>::empty());
    assert(trimmed_nonempty(Seq::<Seq<char>>::empty()) =~= Seq::<Seq<char>>::empty());
    assert(Seq::<Seq<char>>::empty().push(trim_spec(cs)) =~= seq![trim_spec(cs)]);
}

/// The addresses of two lists joined by a comma are those of the first, then those of the
/// second.
pub proof fn lemma_wallet_addresses_join(a: Seq<char>, b: Seq<char>)
    ensures
        wallet_addresses_spec(a + seq![','] + b) == wallet_addresses_spec(a)
            + wallet_addresses_spec(b),
{
    lemma_split_commas_join(a, b);
    lemma_trimmed_nonempty_join(split_commas(a), split_commas(b));
}

/// Splits a comma-separated list of wallet addresses, trims each and drops the empty ones.
pub fn split_wallet_addresses(s: &str) -> (r: Vec<String>)
    ensures
        r@.map_values(|a: String| a@) == wallet_addresses_spec(s@),
{
    let cs = chars_of(s);
    let n = cs.len();
    let mut out: Vec<String> = Vec::new();
    let mut piece_start: usize = 0;
    let mut i: usize = 0;
    let ghost mut done: Seq<Seq<char>> = Seq::empty();
    assert(cs@.subrange(0, 0) =~= Seq::<char>::empty());
    while i < n
        invariant
            piece_start <= i <= n == cs.len(),
            split_commas(cs@.subrange(0, i as int)) == done.push(
                cs@.subrange(piece_start as int, i as int),
            ),
            out@.map_values(|a: String| a@) == trimmed_nonempty(done),
        decreases n - i,
    {
        let ghost prefix = cs@.subrange(0, i as int);
        assert(cs@.subrange(0, i + 1).drop_last() =~= prefix);
        assert(cs@.subrange(0, i + 1).last() == cs@[i as int]);
        proof {
            lemma_split_commas_nonempty(prefix);
        }
        if cs[i] == ',' {
            let (lo, hi) = trim_bounds(&cs, piece_start, i);
            let ghost piece = cs@.subrange(piece_start as int, i as int);
            if lo < hi {
                let a = string_of(&cs, lo, hi);
                out.push(a);
            }
            proof {
                let new_done = done.push(piece);
                assert(new_done.drop_last() =~= done);
                assert(new_done.last() == piece);
                assert(out@.map_values(|a: String| a@) =~= trimmed_nonempty(new_done));
                assert(cs@.subrange(i + 1, i + 1) =~= Seq::<char>::empty());
                assert(split_commas(cs@.subrange(0, i + 1)) =~= new_done.push(
                    cs@.subrange(i + 1, i + 1),
                ));
                done = new_done;
            }
            piece_start = i + 1;
        } else {
            proof {
                assert(cs@.subrange(piece_start as int, i + 1) =~= cs@.subrange(
                    piece_start as int,
                    i as int,
                ).push(cs@[i as int]));
                assert(split_commas(cs@.subrange(0, i + 1)) =~= done.push(
                    cs@.subrange(piece_start as int, i + 1),
                ));
            }
        }
        i = i + 1;
    }
    let (lo, hi) = trim_bounds(&cs, piece_start, n);
    let ghost piece = cs@.subrange(piece_start as int, n as int);
    if lo < hi {
        let a = string_of(&cs, lo, hi);
        out.push(a);
    }
    proof {
        let all = done.push(piece);
        assert(all.drop_last() =~= done);
        assert(cs@.subrange(0, n as int) =~= s@);
        assert(out@.map_values(|a: String| a@) =~= trimmed_nonempty(all));
    }
    out
}

/// A miner that is marked completed.
pub open spec fn is_completed<S>(m: Miner<S>) -> bool {
    m.status matches Some(st) && st@ == "completed"@
}

/// Whether a saved miner that a wallet refresh did not return again is kept: it was
/// entered by hand, its address is still watched, or it is completed.
pub open spec fn keeps_unmatched<S>(m: Miner<S>, watched: Seq<Seq<char>>) -> bool {
    m.address@.len() == 0 || watched.contains(m.address@) || is_completed(m)
}

/// The saved miners that a wallet refresh keeps beside the ones it read: those it did not
/// read again (`matched` is false) and that `keeps_unmatched` keeps, in order.
pub open spec fn preserved_spec<S>(
    saved: Seq<Miner<S>>,
    matched: Seq<bool>,
    watched: Seq<Seq<char>>,
) -> Seq<Miner<S>>
    decreases saved.len(),
{
    if saved.len() == 0 {
        Seq::empty()
    } else {
        let n = saved.len() - 1;
        let rest = preserved_spec(saved.drop_last(), matched.subrange(0, n), watched);
        if !matched[n] && keeps_unmatched(saved[n], watched) {
            rest.push(saved[n])
        } else {
            rest
        }
    }
}

/// A copy of a miner.
pub fn copy_miner<S: Copy>(m: &Miner<S>) -> (r: Miner<S>)
    ensures
        r == *m,
{
    Miner {
        id: m.id,
        address: m.address.clone(),
        start_date: m.start_date.clone(),
        end_date: m.end_date.clone(),
        t_shares: m.t_shares,
        status: match &m.status {
            Some(st) => Some(st.clone()),
            None => None,
        },
    }
}

/// Whether `addr` is one of the watched addresses.
pub fn is_watched_address(addr: &String, watched: &Vec<String>) -> (r: bool)
    ensures
        r == watched@.map_values(|a: String| a@).contains(addr@),
{
    let ghost views = watched@.map_values(|a: String| a@);
    let mut i: usize = 0;
    while i < watched.len()
        invariant
            i <= watched.len(),
            views == watched@.map_values(|a: String| a@),
            forall|j: int| 0 <= j < i ==> views[j] != addr@,
        decreases watched.len() - i,
    {
        if str_eq(watched[i].as_str(), addr.as_str()) {
            assert(views[i as int] == addr@);
            return true;
        }
        i = i + 1;
    }
    false
}

/// The saved miners that a wallet refresh keeps beside the ones it read again: every saved
/// miner not read again (`matched[i]` false) that was entered by hand, whose address is
/// still watched, or that is completed.
pub fn preserved_miners<S: Copy>(
    saved: &Vec<Miner<S>>,
    matched: &Vec<bool>,
    watched: &Vec<String>,
) -> (r: Vec<Miner<S>>)
    requires
        matched.len() == saved.len(),
    ensures
        r@ == preserved_spec(saved@, matched@, watched@.map_values(|a: String| a@)),
{
    let ghost views = watched@.map_values(|a: String| a@);
    let mut out: Vec<Miner<S>> = Vec::new();
    let mut i: usize = 0;
    assert(saved@.subrange(0, 0) =~= Seq::<Miner<S>>::empty());
    while i < saved.len()
        invariant
            i <= saved.len() == matched.len(),
            views == watched@.map_values(|a: String| a@),
            out@ == preserved_spec(
                saved@.subrange(0, i as int),
                matched@.subrange(0, i as int),
                views,
            ),
        decreases saved.len() - i,
    {
        let m = &saved[i];
        let keep = !matched[i] && (m.address.as_str().is_empty() || is_watched_address(&m.address, watched)
            || match &m.status {
            Some(st) => str_eq(st.as_str(), "completed"),
            None => false,
        });
        proof {
            let sub = saved@.subrange(0, i + 1);
            assert(sub.drop_last() =~= saved@.subrange(0, i as int));
            assert(matched@.subrange(0, i + 1).subrange(0, i as int) =~= matched@.subrange(
                0,
                i as int,
            ));
            assert(sub[i as int] == saved@[i as int]);
        }
        if keep {
            out.push(copy_miner(m));
        }
        i = i + 1;
    }
    assert(saved@.subrange(0, saved.len() as int) =~= saved@);
    assert(matched@.subrange(0, matched.len() as int) =~= matched@);
    out
}

/// What the wallet job sees of the configured addresses: whether they differ from the
/// ones it last read, and whether there are any (the text is not blank).
pub fn wallet_watch_state(addresses: &str, previous: &str) -> (r: (bool, bool))
    ensures
        r.0 == (addresses@ != previous@),
        r.1 == (trim_spec(addresses@).len() > 0),
{
    let changed = !str_eq(addresses, previous);
    let cs = chars_of(addresses);
    let (lo, hi) = trim_bounds(&cs, 0, cs.len());
    assert(cs@.subrange(0, cs@.len() as int) =~= addresses@);
    (changed, lo < hi)
}

} // verus!
