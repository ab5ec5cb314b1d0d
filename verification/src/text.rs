use vstd::prelude::*;

verus! {

broadcast use vstd::string::group_string_axioms;

/// `String::push`. Trusted: the character is appended at the end and nothing else changes,
/// as its documentation says.
pub assume_specification[ String::push ](s: &mut String, ch: char)
    ensures
        final(s)@ == old(s)@.push(ch),
;

/// The characters of `s`, in order.
pub fn chars_of(s: &str) -> (v: Vec<char>)
    ensures
        v@ == s@,
{
    let mut v: Vec<char> = Vec::new();
    for c in it: s.chars()
        invariant
            v@ == it.seq().take(it.index() as int),
            it.seq() == s@,
    {
        v.push(c);
    }
    v
}

/// `char::is_whitespace`: the characters with the Unicode White_Space property.
pub open spec fn is_whitespace_char(c: char) -> bool {
    let u = c as u32;
    ||| 0x09 <= u && u <= 0x0d
    ||| u == 0x20
    ||| u == 0x85
    ||| u == 0xa0
    ||| u == 0x1680
    ||| 0x2000 <= u && u <= 0x200a
    ||| u == 0x2028
    ||| u == 0x2029
    ||| u == 0x202f
    ||| u == 0x205f
    ||| u == 0x3000
}

/// The text without its leading whitespace.
pub open spec fn trim_start_spec(cs: Seq<char>) -> Seq<char>
    decreases cs.len(),
{
    if cs.len() > 0 && is_whitespace_char(cs[0]) {
        trim_start_spec(cs.drop_first())
    } else {
        cs
    }
}

/// The text without its trailing whitespace.
pub open spec fn trim_end_spec(cs: Seq<char>) -> Seq<char>
    decreases cs.len(),
{
    if cs.len() > 0 && is_whitespace_char(cs.last()) {
        trim_end_spec(cs.drop_last())
    } else {
        cs
    }
}

/// `str::trim`: the text without leading and trailing whitespace.
pub open spec fn trim_spec(cs: Seq<char>) -> Seq<char> {
    trim_end_spec(trim_start_spec(cs))
}

/// Whether `c` is whitespace in the sense of `char::is_whitespace`.
pub fn is_whitespace(c: char) -> (r: bool)
    ensures
        r == is_whitespace_char(c),
{
    let u = c as u32;
    (0x09 <= u && u <= 0x0d) || u == 0x20 || u == 0x85 || u == 0xa0 || u == 0x1680 || (0x2000 <= u
        && u <= 0x200a) || u == 0x2028 || u == 0x2029 || u == 0x202f || u == 0x205f || u == 0x3000
}

/// The bounds `(lo, hi)` of the trimmed part of `cs[from..to]`.
pub fn trim_bounds(cs: &Vec<char>, from: usize, to: usize) -> (r: (usize, usize))
    requires
        from <= to <= cs.len(),
    ensures
        from <= r.0 <= r.1 <= to,
        cs@.subrange(r.0 as int, r.1 as int) == trim_spec(cs@.subrange(from as int, to as int)),
{
    let mut lo = from;
    while lo < to && is_whitespace(cs[lo])
        invariant
            from <= lo <= to <= cs.len(),
            trim_start_spec(cs@.subrange(from as int, to as int)) == trim_start_spec(
                cs@.subrange(lo as int, to as int),
            ),
        decreases to - lo,
    {
        assert(cs@.subrange(lo as int, to as int).drop_first() =~= cs@.subrange(
            lo + 1,
            to as int,
        ));
        lo = lo + 1;
    }
    assert(trim_start_spec(cs@.subrange(lo as int, to as int)) == cs@.subrange(lo as int, to as int));
    let mut hi = to;
    while hi > lo && is_whitespace(cs[hi - 1])
        invariant
            from <= lo <= hi <= to <= cs.len(),
            trim_end_spec(cs@.subrange(lo as int, to as int)) == trim_end_spec(
                cs@.subrange(lo as int, hi as int),
            ),
        decreases hi - lo,
    {
        assert(cs@.subrange(lo as int, hi as int).drop_last() =~= cs@.subrange(
            lo as int,
            hi - 1,
        ));
        hi = hi - 1;
    }
    (lo, hi)
}

/// Appends the characters `cs[lo..hi]`.
pub fn push_chars(out: &mut String, cs: &Vec<char>, lo: usize, hi: usize)
    requires
        lo <= hi <= cs.len(),
    ensures
        final(out)@ == old(out)@ + cs@.subrange(lo as int, hi as int),
{
    let mut i = lo;
    while i < hi
        invariant
            lo <= i <= hi <= cs.len(),
            out@ == old(out)@ + cs@.subrange(lo as int, i as int),
        decreases hi - i,
    {
        out.push(cs[i]);
        assert(old(out)@ + cs@.subrange(lo as int, i + 1) =~= (old(out)@ + cs@.subrange(
            lo as int,
            i as int,
        )).push(cs@[i as int]));
        i = i + 1;
    }
}

/// A new string holding the characters `cs[lo..hi]`.
pub fn string_of(cs: &Vec<char>, lo: usize, hi: usize) -> (r: String)
    requires
        lo <= hi <= cs.len(),
    ensures
        r@ == cs@.subrange(lo as int, hi as int),
{
    let mut out = String::new();
    push_chars(&mut out, cs, lo, hi);
    assert(Seq::<char>::empty() + cs@.subrange(lo as int, hi as int) =~= cs@.subrange(
        lo as int,
        hi as int,
    ));
    out
}

/// Whether two texts hold the same characters.
pub fn str_eq(a: &str, b: &str) -> (r: bool)
    ensures
        r == (a@ == b@),
{
    let ca = chars_of(a);
    let cb = chars_of(b);
    if ca.len() != cb.len() {
        return false;
    }
    let mut i: usize = 0;
    while i < ca.len()
        invariant
            i <= ca.len() == cb.len(),
            ca@ == a@,
            cb@ == b@,
            forall|j: int| 0 <= j < i ==> ca@[j] == cb@[j],
        decreases ca.len() - i,
    {
        if ca[i] != cb[i] {
            return false;
        }
        i = i + 1;
    }
    assert(ca@ =~= cb@);
    true
}

/// The position of the first `c` in `cs`, or its length when there is none.
pub open spec fn first_index(cs: Seq<char>, c: char) -> int
    decreases cs.len(),
{
    if cs.len() == 0 {
        0
    } else if cs[0] == c {
        0
    } else {
        1 + first_index(cs.drop_first(), c)
    }
}

/// `first_index` is where the first `c` stands, everything before it being another
/// character.
pub proof fn lemma_first_index(cs: Seq<char>, c: char)
    ensures
        0 <= first_index(cs, c) <= cs.len(),
        first_index(cs, c) < cs.len() ==> cs[first_index(cs, c)] == c,
        forall|i: int| 0 <= i < first_index(cs, c) ==> cs[i] != c,
    decreases cs.len(),
{
    if cs.len() > 0 && cs[0] != c {
        lemma_first_index(cs.drop_first(), c);
        assert forall|i: int| 0 <= i < first_index(cs, c) implies cs[i] != c by {
            if i > 0 {
                assert(cs[i] == cs.drop_first()[i - 1]);
            }
        }
    }
}

/// A position before which there is no `c` and at which `c` stands (or the end) is the
/// first index of `c`.
pub proof fn lemma_first_index_at(cs: Seq<char>, c: char, k: int)
    requires
        0 <= k <= cs.len(),
        k < cs.len() ==> cs[k] == c,
        forall|i: int| 0 <= i < k ==> cs[i] != c,
    ensures
        first_index(cs, c) == k,
    decreases cs.len(),
{
    if k > 0 {
        assert(cs[0] != c);
        assert forall|i: int| 0 <= i < k - 1 implies cs.drop_first()[i] != c by {
            assert(cs.drop_first()[i] == cs[i + 1]);
        }
        lemma_first_index_at(cs.drop_first(), c, k - 1);
    }
}

/// The pieces of `cs` between the characters `sep`, front to back (one more piece than
/// there are separators).
pub open spec fn split_on(cs: Seq<char>, sep: char) -> Seq<Seq<char>>
    decreases cs.len(),
{
    let i = first_index(cs, sep);
    if i >= cs.len() || i < 0 {
        seq![cs]
    } else {
        seq![cs.subrange(0, i)] + split_on(cs.subrange(i + 1, cs.len() as int), sep)
    }
}

/// The first index of `c` in `cs[lo..hi]`, counted from `lo`.
pub fn find_char(cs: &Vec<char>, lo: usize, hi: usize, c: char) -> (r: usize)
    requires
        lo <= hi <= cs.len(),
    ensures
        lo <= r <= hi,
        r - lo == first_index(cs@.subrange(lo as int, hi as int), c),
{
    let mut i = lo;
    while i < hi && cs[i] != c
        invariant
            lo <= i <= hi <= cs.len(),
            forall|j: int| lo <= j < i ==> cs@[j] != c,
        decreases hi - i,
    {
        i = i + 1;
    }
    proof {
        let sub = cs@.subrange(lo as int, hi as int);
        assert forall|j: int| 0 <= j < i - lo implies sub[j] != c by {
            assert(sub[j] == cs@[lo + j]);
        }
        lemma_first_index_at(sub, c, i - lo);
    }
    i
}

/// Whether `cs[lo..hi]` holds exactly the characters of `lit`.
pub fn range_eq_str(cs: &Vec<char>, lo: usize, hi: usize, lit: &str) -> (r: bool)
    requires
        lo <= hi <= cs.len(),
    ensures
        r == (cs@.subrange(lo as int, hi as int) == lit@),
{
    let ls = chars_of(lit);
    if hi - lo != ls.len() {
        return false;
    }
    let mut i: usize = 0;
    while i < ls.len()
        invariant
            i <= ls.len() == hi - lo,
            lo <= hi <= cs.len(),
            ls@ == lit@,
            forall|j: int| 0 <= j < i ==> cs@[lo + j] == ls@[j],
        decreases ls.len() - i,
    {
        if cs[lo + i] != ls[i] {
            assert(cs@.subrange(lo as int, hi as int)[i as int] != lit@[i as int]);
            return false;
        }
        i = i + 1;
    }
    assert(cs@.subrange(lo as int, hi as int) =~= lit@);
    true
}

/// `cs` starts with `p`.
pub open spec fn has_prefix(cs: Seq<char>, p: Seq<char>) -> bool {
    p.len() <= cs.len() && cs.subrange(0, p.len() as int) == p
}

/// `p` occurs somewhere in `cs`.
pub open spec fn has_infix(cs: Seq<char>, p: Seq<char>) -> bool {
    exists|i: int| 0 <= i && i + p.len() <= cs.len() && #[trigger] cs.subrange(i, i + p.len()) == p
}

/// Whether `s` starts with `p`.
pub fn starts_with_str(s: &str, p: &str) -> (r: bool)
    ensures
        r == has_prefix(s@, p@),
{
    let cs = chars_of(s);
    let pl = chars_of(p).len();
    if pl > cs.len() {
        return false;
    }
    range_eq_str(&cs, 0, pl, p)
}

/// Whether `p` occurs in `s`.
pub fn contains_str(s: &str, p: &str) -> (r: bool)
    ensures
        r == has_infix(s@, p@),
{
    let cs = chars_of(s);
    let pl = chars_of(p).len();
    if pl > cs.len() {
        return false;
    }
    if pl == 0 {
        assert(s@.subrange(0int, 0int + p@.len()) =~= p@);
        return true;
    }
    let last: usize = cs.len() - pl;
    let mut i: usize = 0;
    while i <= last
        invariant
            pl == p@.len(),
            cs@ == s@,
            0 < pl <= cs.len(),
            last == cs.len() - pl,
            i <= last + 1,
            forall|j: int| 0 <= j < i ==> #[trigger] cs@.subrange(j, j + pl) != p@,
        decreases last + 1 - i,
    {
        if range_eq_str(&cs, i, i + pl, p) {
            return true;
        }
        i = i + 1;
    }
    assert forall|j: int| 0 <= j && j + p@.len() <= s@.len() implies #[trigger] s@.subrange(
        j,
        j + p@.len(),
    ) != p@ by {
        assert(j < i);
    }
    false
}

/// The first piece of `split_on` ends at the first separator; when there is one, the
/// other pieces are those of the text after it, and otherwise there is no other piece.
pub proof fn lemma_split_on_head(cs: Seq<char>, sep: char)
    ensures
        split_on(cs, sep).len() >= 1,
        split_on(cs, sep)[0] == cs.subrange(0, first_index(cs, sep)),
        first_index(cs, sep) < cs.len() ==> split_on(cs, sep).drop_first() == split_on(
            cs.subrange(first_index(cs, sep) + 1, cs.len() as int),
            sep,
        ),
        first_index(cs, sep) >= cs.len() ==> split_on(cs, sep).len() == 1,
{
    lemma_first_index(cs, sep);
    let i = first_index(cs, sep);
    if i >= cs.len() {
        assert(cs.subrange(0, i) =~= cs);
    } else {
        let rest = split_on(cs.subrange(i + 1, cs.len() as int), sep);
        assert((seq![cs.subrange(0, i)] + rest).drop_first() =~= rest);
    }
}

/// Appends the characters of `s`.
pub fn append_str(out: &mut String, s: &str)
    ensures
        final(out)@ == old(out)@ + s@,
{
    let cs = chars_of(s);
    push_chars(out, &cs, 0, cs.len());
    assert(cs@.subrange(0, cs@.len() as int) =~= s@);
}

/// The text without the leading characters `c`.
pub open spec fn strip_start_char(cs: Seq<char>, c: char) -> Seq<char>
    decreases cs.len(),
{
    if cs.len() > 0 && cs[0] == c {
        strip_start_char(cs.drop_first(), c)
    } else {
        cs
    }
}

/// The text without the trailing characters `c`.
pub open spec fn strip_end_char(cs: Seq<char>, c: char) -> Seq<char>
    decreases cs.len(),
{
    if cs.len() > 0 && cs.last() == c {
        strip_end_char(cs.drop_last(), c)
    } else {
        cs
    }
}

/// `str::trim_matches` with one character: the text without that character at either end.
pub open spec fn strip_char(cs: Seq<char>, c: char) -> Seq<char> {
    strip_end_char(strip_start_char(cs, c), c)
}

/// The text of `s` without the character `c` at either end.
pub fn strip_char_str(s: &str, c: char) -> (r: String)
    ensures
        r@ == strip_char(s@, c),
{
    let cs = chars_of(s);
    let to = cs.len();
    let mut lo: usize = 0;
    assert(cs@.subrange(0, to as int) =~= s@);
    while lo < to && cs[lo] == c
        invariant
            lo <= to == cs.len(),
            cs@ == s@,
            strip_start_char(s@, c) == strip_start_char(cs@.subrange(lo as int, to as int), c),
        decreases to - lo,
    {
        assert(cs@.subrange(lo as int, to as int).drop_first() =~= cs@.subrange(lo + 1, to as int));
        lo = lo + 1;
    }
    assert(strip_start_char(cs@.subrange(lo as int, to as int), c) == cs@.subrange(lo as int, to as int));
    let mut hi = to;
    while hi > lo && cs[hi - 1] == c
        invariant
            lo <= hi <= to == cs.len(),
            strip_char(s@, c) == strip_end_char(cs@.subrange(lo as int, hi as int), c),
        decreases hi - lo,
    {
        assert(cs@.subrange(lo as int, hi as int).drop_last() =~= cs@.subrange(lo as int, hi - 1));
        hi = hi - 1;
    }
    string_of(&cs, lo, hi)
}

/// What `str::to_lowercase` gives for a text: each character replaced by its Unicode
/// lowercase mapping.
pub uninterp spec fn unicode_lowercase(s: Seq<char>) -> Seq<char>;

/// `str::to_lowercase`. Trusted: the result is the Unicode lowercase mapping of `s`, a
/// function of `s` alone (the tables are std's); nothing more is stated of it.
#[verifier::external_body]
pub(crate) fn to_lowercase(s: &str) -> (r: String)
    ensures
        r@ == unicode_lowercase(s@),
{
    s.to_lowercase()
}

} // verus!
