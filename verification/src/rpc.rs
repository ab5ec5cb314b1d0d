use vstd::prelude::*;
use crate::hex::{
    all_hex, hex_digit, hex_digit_value, hex_digits, hex_value, lemma_hex_digits_all_hex,
    lemma_hex_digits_concat, lemma_hex_digits_nibbles, lemma_hex_value_concat,
    lemma_lower_hex_text, lemma_pow16_positive, lemma_upper_hex_text, lower_hex_text,
    push_lower_hex, upper_hex_text,
};
use crate::text::{append_str, chars_of, trim_bounds, trim_spec};
use crate::u256::{from_hex_spec, U256};
use vstd::string::StringSliceAdditionalSpecFns;
use vstd::string::StrSliceExecFns;
use vstd::utf8::{encode_utf8, is_char_boundary};

verus! {

/// The text after a leading `0x` or `0X`, or the whole text.
pub open spec fn strip_hex_prefix(cs: Seq<char>) -> Seq<char> {
    if cs.len() >= 2 && cs[0] == '0' && (cs[1] == 'x' || cs[1] == 'X') {
        cs.subrange(2, cs.len() as int)
    } else {
        cs
    }
}

/// `u64::from_str_radix(_, 16)`: an optional `+`, then one or more hexadecimal digits of
/// either case denoting a number that fits in 64 bits; `None` for anything else.
pub open spec fn from_str_radix16_spec(cs: Seq<char>) -> Option<u64> {
    let ds = if cs.len() > 0 && cs[0] == '+' {
        cs.drop_first()
    } else {
        cs
    };
    if ds.len() > 0 && all_hex(ds) && hex_value(hex_digits(ds)) <= u64::MAX {
        Some(hex_value(hex_digits(ds)) as u64)
    } else {
        None
    }
}

/// What `parse_hex_u64` reads: the trimmed text, without a `0x`/`0X` prefix, as a 64-bit
/// hexadecimal number; zero when it is empty or is no such number.
pub open spec fn parse_hex_u64_spec(cs: Seq<char>) -> u64 {
    let t = strip_hex_prefix(trim_spec(cs));
    if t.len() == 0 {
        0
    } else {
        match from_str_radix16_spec(t) {
            Some(v) => v,
            None => 0,
        }
    }
}

/// A value read from more digits is at least the value of its leading digits.
proof fn lemma_hex_value_prefix_le(cs: Seq<char>, k: int)
    requires
        0 <= k <= cs.len(),
    ensures
        hex_value(hex_digits(cs.subrange(0, k))) <= hex_value(hex_digits(cs)),
{
    let a = cs.subrange(0, k);
    let b = cs.subrange(k, cs.len() as int);
    assert(a + b =~= cs);
    lemma_hex_digits_concat(a, b);
    lemma_hex_value_concat(hex_digits(a), hex_digits(b));
    lemma_pow16_positive(hex_digits(b).len());
    let x = hex_value(hex_digits(a));
    let p = crate::hex::pow16(hex_digits(b).len());
    assert(x <= x * p) by (nonlinear_arith)
        requires
            p >= 1,
    ;
}

/// Reads a JSON-RPC quantity such as `"0x1b4"`: surrounding whitespace and a `0x`/`0X`
/// prefix are dropped and the rest is read as a 64-bit hexadecimal number; text that is
/// empty, has any other character, or overflows 64 bits reads as zero.
pub fn parse_hex_u64(s: &str) -> (r: u64)
    ensures
        r == parse_hex_u64_spec(s@),
{
    let cs = chars_of(s);
    let (lo, hi) = trim_bounds(&cs, 0, cs.len());
    assert(cs@.subrange(0, cs.len() as int) =~= s@);
    let ghost t = cs@.subrange(lo as int, hi as int);
    let mut start = lo;
    if hi - lo >= 2 && cs[lo] == '0' && (cs[lo + 1] == 'x' || cs[lo + 1] == 'X') {
        start = lo + 2;
    }
    let ghost u = cs@.subrange(start as int, hi as int);
    assert(u =~= strip_hex_prefix(t));
    if start == hi {
        return 0;
    }
    if cs[start] == '+' {
        start = start + 1;
    }
    let ghost ds = cs@.subrange(start as int, hi as int);
    assert(ds =~= (if u.len() > 0 && u[0] == '+' {
        u.drop_first()
    } else {
        u
    }));
    if start == hi {
        return 0;
    }
    assert(parse_hex_u64_spec(s@) == (if ds.len() > 0 && all_hex(ds) && hex_value(hex_digits(ds))
        <= u64::MAX {
        hex_value(hex_digits(ds)) as u64
    } else {
        0
    }));
    let mut acc: u64 = 0;
    let mut i = start;
    while i < hi
        invariant
            start <= i <= hi <= cs.len(),
            ds == cs@.subrange(start as int, hi as int),
            ds.len() > 0,
            parse_hex_u64_spec(s@) == (if all_hex(ds) && hex_value(hex_digits(ds)) <= u64::MAX {
                hex_value(hex_digits(ds)) as u64
            } else {
                0
            }),
            all_hex(cs@.subrange(start as int, i as int)),
            acc as nat == hex_value(hex_digits(cs@.subrange(start as int, i as int))),
        decreases hi - i,
    {
        let ghost prefix = cs@.subrange(start as int, i as int);
        let ghost next = cs@.subrange(start as int, i + 1);
        assert(next =~= prefix + seq![cs@[i as int]]);
        assert(ds.subrange(0, i - start) =~= prefix);
        assert(ds.subrange(0, i - start + 1) =~= next);
        match hex_digit(cs[i]) {
            None => {
                assert(!all_hex(ds)) by {
                    assert(ds[i - start] == cs@[i as int]);
                    assert(hex_digit_value(ds[i - start]) is None);
                }
                return 0;
            },
            Some(d) => {
                proof {
                    lemma_hex_digits_concat(prefix, seq![cs@[i as int]]);
                    assert(seq![cs@[i as int]].drop_first() =~= Seq::<char>::empty());
                    assert(seq![cs@[i as int]][0] == cs@[i as int]);
                    assert(hex_digits(Seq::<char>::empty()) =~= Seq::<u8>::empty());
                    assert(hex_digits(seq![cs@[i as int]]) =~= seq![d]);
                    assert(hex_digits(next) =~= hex_digits(prefix).push(d));
                    assert(hex_digits(next).drop_last() =~= hex_digits(prefix));
                    assert(hex_value(hex_digits(next)) == acc * 16 + d);
                    assert forall|j: int| 0 <= j < next.len() implies (#[trigger] hex_digit_value(
                        next[j],
                    )) is Some by {
                        if j < prefix.len() {
                            assert(next[j] == prefix[j]);
                        }
                    }
                }
                if acc > (u64::MAX - d as u64) / 16 {
                    proof {
                        assert(acc * 16 + d > u64::MAX) by (nonlinear_arith)
                            requires
                                acc > (u64::MAX - d) / 16,
                                d < 16,
                        ;
                        lemma_hex_value_prefix_le(ds, i - start + 1);
                    }
                    return 0;
                }
                proof {
                    assert(acc * 16 + d <= u64::MAX) by (nonlinear_arith)
                        requires
                            acc <= (u64::MAX - d) / 16,
                            d < 16,
                    ;
                }
                acc = acc * 16 + d as u64;
            },
        }
        i = i + 1;
    }
    assert(cs@.subrange(start as int, hi as int) =~= ds);
    acc
}

/// What `block_tag` writes: `0x` and the lowercase hexadecimal block number, or `latest`.
pub open spec fn block_tag_spec(block: Option<u64>) -> Seq<char> {
    match block {
        Some(n) => seq!['0', 'x'] + lower_hex_text(n as nat),
        None => seq!['l', 'a', 't', 'e', 's', 't'],
    }
}

/// The JSON-RPC block parameter: `0x` and the block number in lowercase hexadecimal, or
/// `latest` when no block is given.
pub fn block_tag(block: Option<u64>) -> (r: String)
    ensures
        r@ == block_tag_spec(block),
{
    let mut out = String::new();
    match block {
        Some(n) => {
            out.push('0');
            out.push('x');
            push_lower_hex(&mut out, n);
            assert(out@ =~= block_tag_spec(block));
        },
        None => {
            out.push('l');
            out.push('a');
            out.push('t');
            out.push('e');
            out.push('s');
            out.push('t');
            assert(out@ =~= block_tag_spec(block));
        },
    }
    out
}

/// A block number written as a block parameter reads back as the same number.
pub proof fn lemma_block_tag_roundtrip(n: u64)
    ensures
        parse_hex_u64_spec(block_tag_spec(Some(n))) == n,
{
    let t = block_tag_spec(Some(n));
    let h = lower_hex_text(n as nat);
    lemma_lower_hex_text(n as nat);
    assert(crate::text::trim_start_spec(t) == t);
    assert(crate::text::trim_end_spec(t) == t) by {
        assert(t.last() == h.last());
        assert(hex_digit_value(h[h.len() - 1]) is Some);
    }
    assert(strip_hex_prefix(t) =~= h);
    assert(hex_digit_value(h[0]) is Some);
    assert(h[0] != '+');
    lemma_hex_digits_all_hex(h);
    lemma_hex_digits_nibbles(h);
}

/// A hexadecimal spelling of `n` with nothing around it: digits only, the first of them no
/// `+`, reading back as `n`.
proof fn lemma_parse_plain_hex(h: Seq<char>, n: u64)
    requires
        h.len() >= 1,
        all_hex(h),
        hex_value(hex_digits(h)) == n,
    ensures
        parse_hex_u64_spec(h) == n,
{
    assert(hex_digit_value(h[0]) is Some);
    assert(hex_digit_value(h[h.len() - 1]) is Some);
    assert(crate::text::trim_start_spec(h) == h);
    assert(crate::text::trim_end_spec(h) == h);
    assert(h[0] != '+');
    if h.len() >= 2 {
        assert(hex_digit_value(h[1]) is Some);
    }
    assert(strip_hex_prefix(h) == h);
}

/// A number written in hexadecimal without a prefix, in lowercase (`{:x}`) or uppercase
/// (`{:X}`), reads back as the same number.
pub proof fn lemma_parse_unprefixed_hex(n: u64)
    ensures
        parse_hex_u64_spec(lower_hex_text(n as nat)) == n,
        parse_hex_u64_spec(upper_hex_text(n as nat)) == n,
{
    lemma_lower_hex_text(n as nat);
    lemma_upper_hex_text(n as nat);
    lemma_parse_plain_hex(lower_hex_text(n as nat), n);
    lemma_parse_plain_hex(upper_hex_text(n as nat), n);
}

/// Where the ABI payload of a call result starts: after a leading `0x`, if any.
pub open spec fn payload_offset(bs: Seq<u8>) -> int {
    if bs.len() >= 2 && bs[0] == 48 && bs[1] == 120 {
        2
    } else {
        0
    }
}

/// The length in bytes of the ABI payload of a call result.
pub open spec fn payload_len(bs: Seq<u8>) -> int {
    bs.len() - payload_offset(bs)
}

/// Bytes read as characters one by one; a byte above `0x7f` stands for no digit.
pub open spec fn byte_chars(bs: Seq<u8>) -> Seq<char> {
    bs.map_values(|b: u8| b as char)
}

/// The number in the `i`-th 64-digit word of the ABI payload of `bs`.
pub open spec fn abi_word_spec(bs: Seq<u8>, i: int) -> nat {
    let o = payload_offset(bs);
    from_hex_spec(byte_chars(bs.subrange(o + 64 * i, o + 64 * i + 64)))
}

/// Whether every word edge from word `first` to word `first + count` falls on a character
/// boundary of the text, so that the text can be cut there; nothing is cut when the
/// payload is shorter than `min_len`.
pub open spec fn words_splittable(bs: Seq<u8>, min_len: int, first: int, count: int) -> bool {
    payload_len(bs) >= min_len ==> forall|j: int|
        0 <= j <= count ==> #[trigger] is_char_boundary(bs, payload_offset(bs) + 64 * (first + j))
}

/// Whether `decode_words` may read `count` words from word `first` of `result`: the text
/// is cut only on character boundaries.
pub fn words_split_cleanly(result: &str, min_len: usize, first: usize, count: usize) -> (r: bool)
    requires
        64 * (first + count) <= min_len,
    ensures
        r == words_splittable(result.spec_bytes(), min_len as int, first as int, count as int),
{
    let bs = result.as_bytes();
    let n = bs.len();
    let o: usize = if n >= 2 && bs[0] == 48 && bs[1] == 120 {
        2
    } else {
        0
    };
    if n - o < min_len {
        return true;
    }
    let mut j: usize = 0;
    while j <= count
        invariant
            n == result.spec_bytes().len(),
            o == payload_offset(result.spec_bytes()),
            n - o >= min_len,
            64 * (first + count) <= min_len,
            j <= count + 1,
            forall|k: int|
                0 <= k < j ==> #[trigger] is_char_boundary(
                    result.spec_bytes(),
                    o + 64 * (first + k),
                ),
        decreases count + 1 - j,
    {
        if !result.is_char_boundary(o + 64 * (first + j)) {
            return false;
        }
        j = j + 1;
    }
    true
}

/// Splits the ABI payload of a call result (after an optional `0x`) into 64-digit words and
/// reads `count` of them from word `first`. A payload shorter than `min_len` bytes is
/// refused with its length.
pub fn decode_words(result: &str, min_len: usize, first: usize, count: usize) -> (r: Result<
    Vec<U256>,
    usize,
>)
    requires
        64 * (first + count) <= min_len,
        words_splittable(result.spec_bytes(), min_len as int, first as int, count as int),
    ensures
        (r is Err) <==> payload_len(result.spec_bytes()) < min_len,
        r matches Err(l) ==> l == payload_len(result.spec_bytes()),
        r matches Ok(ws) ==> ws.len() == count && forall|i: int|
            0 <= i < count ==> (#[trigger] ws[i]).value() == abi_word_spec(
                result.spec_bytes(),
                first + i,
            ),
{
    let bs = result.as_bytes();
    let n = bs.len();
    let o: usize = if n >= 2 && bs[0] == 48 && bs[1] == 120 {
        2
    } else {
        0
    };
    if n - o < min_len {
        return Err(n - o);
    }
    let end = o + 64 * (first + count);
    let mut cs: Vec<char> = Vec::new();
    let mut k = o;
    while k < end
        invariant
            o <= k <= end <= n,
            bs@ == result.spec_bytes(),
            n == bs@.len(),
            cs@ == byte_chars(bs@.subrange(o as int, k as int)),
        decreases end - k,
    {
        cs.push(bs[k] as char);
        assert(byte_chars(bs@.subrange(o as int, k + 1)) =~= byte_chars(
            bs@.subrange(o as int, k as int),
        ).push(bs@[k as int] as char));
        k = k + 1;
    }
    assert(cs.len() == end - o);
    let mut words: Vec<U256> = Vec::new();
    let mut i: usize = 0;
    while i < count
        invariant
            i <= count,
            64 * (first + count) <= min_len,
            o == payload_offset(bs@),
            end == o + 64 * (first + count),
            end <= n,
            n == bs@.len(),
            bs@ == result.spec_bytes(),
            cs@ == byte_chars(bs@.subrange(o as int, end as int)),
            cs.len() == end - o,
            words.len() == i,
            forall|j: int|
                0 <= j < i ==> (#[trigger] words[j]).value() == abi_word_spec(
                    result.spec_bytes(),
                    first + j,
                ),
        decreases count - i,
    {
        let lo = 64 * (first + i);
        assert(lo + 64 <= 64 * (first + count));
        let w = U256::from_hex_chars(&cs, lo, lo + 64);
        assert forall|j: int| 0 <= j < 64 implies #[trigger] cs@.subrange(lo as int, lo + 64)[j]
            == byte_chars(bs@.subrange(o + lo, o + lo + 64))[j] by {
            assert(cs@.subrange(lo as int, lo + 64)[j] == cs@[lo + j]);
            assert(cs@[lo + j] == bs@.subrange(o as int, end as int)[lo + j] as char);
            assert(bs@.subrange(o as int, end as int)[lo + j] == bs@[o + lo + j]);
        }
        assert(cs@.subrange(lo as int, lo + 64) =~= byte_chars(
            bs@.subrange(o + lo, o + lo + 64),
        ));
        words.push(w);
        i = i + 1;
    }
    Ok(words)
}

/// Reads `globals()`: a payload of at least 320 digits, of which words 2, 3 and 4 are the
/// share rate, the penalties and the daily-data count; a shorter payload is refused with
/// its length.
pub fn decode_globals(result: &str) -> (r: Result<(U256, U256, U256), usize>)
    requires
        words_splittable(result.spec_bytes(), 320, 2, 3),
    ensures
        (r is Err) <==> payload_len(result.spec_bytes()) < 320,
        r matches Err(l) ==> l == payload_len(result.spec_bytes()),
        r matches Ok(w) ==> w.0.value() == abi_word_spec(result.spec_bytes(), 2) && w.1.value()
            == abi_word_spec(result.spec_bytes(), 3) && w.2.value() == abi_word_spec(
            result.spec_bytes(),
            4,
        ),
{
    match decode_words(result, 320, 2, 3) {
        Ok(ws) => Ok((ws[0], ws[1], ws[2])),
        Err(l) => Err(l),
    }
}

/// Reads a payload whose first two words matter, as `dailyData(day)` (payout, shares)
/// and `getReserves()` (the two reserves) answer: at least 128 digits, or the length is
/// refused.
pub fn decode_word_pair(result: &str) -> (r: Result<(U256, U256), usize>)
    requires
        words_splittable(result.spec_bytes(), 128, 0, 2),
    ensures
        (r is Err) <==> payload_len(result.spec_bytes()) < 128,
        r matches Err(l) ==> l == payload_len(result.spec_bytes()),
        r matches Ok(w) ==> w.0.value() == abi_word_spec(result.spec_bytes(), 0) && w.1.value()
            == abi_word_spec(result.spec_bytes(), 1),
{
    match decode_words(result, 128, 0, 2) {
        Ok(ws) => Ok((ws[0], ws[1])),
        Err(l) => Err(l),
    }
}

/// Reads a `stakeLists(address, index)` answer after trimming surrounding whitespace: a
/// payload of at least 448 digits gives words 2, 3 and 4 (stake shares, locked day, staked
/// days); a shorter one gives nothing.
pub fn decode_stake_record(result: &str) -> (r: Option<(U256, U256, U256)>)
    requires
        words_splittable(encode_utf8(trim_spec(result@)), 448, 2, 3),
    ensures
        ({
            let bs = encode_utf8(trim_spec(result@));
            &&& (r is None) <==> payload_len(bs) < 448
            &&& r matches Some(w) ==> w.0.value() == abi_word_spec(bs, 2) && w.1.value()
                == abi_word_spec(bs, 3) && w.2.value() == abi_word_spec(bs, 4)
        }),
{
    let cs = chars_of(result);
    let (lo, hi) = trim_bounds(&cs, 0, cs.len());
    assert(cs@.subrange(0, cs@.len() as int) =~= result@);
    let t = result.substring_char(lo, hi);
    match decode_words(t, 448, 2, 3) {
        Ok(ws) => Some((ws[0], ws[1], ws[2])),
        Err(_) => None,
    }
}

// ---------------------------------------------------------------------------
// Endpoint failover

/// The endpoint that attempt `attempt` of a call uses: the endpoints are tried in turn,
/// starting at the active one and wrapping around.
pub open spec fn endpoint_spec(start: int, attempt: int, count: int) -> int {
    (start + attempt) % count
}

/// The endpoint that attempt `attempt` of a call uses.
pub fn endpoint_for_attempt(start: usize, attempt: usize, count: usize) -> (r: usize)
    requires
        start < count,
        attempt < count,
    ensures
        r == endpoint_spec(start as int, attempt as int, count as int),
        r < count,
{
    let k: usize = if attempt >= count - start {
        attempt - (count - start)
    } else {
        start + attempt
    };
    proof {
        lemma_rotation_value(start as int, attempt as int, count as int);
    }
    k
}

/// Some attempt below `count` uses endpoint `e`.
pub open spec fn endpoint_reached(start: int, count: int, e: int) -> bool {
    exists|a: int| 0 <= a < count && #[trigger] endpoint_spec(start, a, count) == e
}

/// A call tries every endpoint exactly once: the attempts `0..count` reach each endpoint
/// below `count`, and no two attempts reach the same one.
pub proof fn lemma_failover_tries_each_once(start: int, count: int)
    requires
        0 <= start < count,
    ensures
        forall|e: int| 0 <= e < count ==> #[trigger] endpoint_reached(start, count, e),
        forall|a: int, b: int|
            0 <= a < count && 0 <= b < count && #[trigger] endpoint_spec(start, a, count)
                == #[trigger] endpoint_spec(start, b, count) ==> a == b,
{
    assert forall|e: int| 0 <= e < count implies #[trigger] endpoint_reached(start, count, e) by {
        let a = if e >= start {
            e - start
        } else {
            e + count - start
        };
        if e >= start {
            vstd::arithmetic::div_mod::lemma_small_mod(e as nat, count as nat);
        } else {
            vstd::arithmetic::div_mod::lemma_mod_add_multiples_vanish(e, count);
            vstd::arithmetic::div_mod::lemma_small_mod(e as nat, count as nat);
        }
        assert(endpoint_spec(start, a, count) == e);
    }
    assert forall|a: int, b: int|
        0 <= a < count && 0 <= b < count && #[trigger] endpoint_spec(start, a, count)
            == #[trigger] endpoint_spec(start, b, count) implies a == b by {
        lemma_rotation_value(start, a, count);
        lemma_rotation_value(start, b, count);
    }
}

/// The endpoint of attempt `a` without the modulus.
proof fn lemma_rotation_value(start: int, a: int, count: int)
    requires
        0 <= start < count,
        0 <= a < count,
    ensures
        endpoint_spec(start, a, count) == (if start + a < count {
            start + a
        } else {
            start + a - count
        }),
{
    if start + a < count {
        vstd::arithmetic::div_mod::lemma_small_mod((start + a) as nat, count as nat);
    } else {
        vstd::arithmetic::div_mod::lemma_mod_add_multiples_vanish(start + a - count, count);
        vstd::arithmetic::div_mod::lemma_small_mod((start + a - count) as nat, count as nat);
    }
}

/// The endpoint to make active after a call answered on `used`: `used`, when it is not
/// already the active one.
pub fn endpoint_switch(active: usize, used: usize) -> (r: Option<usize>)
    ensures
        r == (if used != active {
            Some(used)
        } else {
            None
        }),
{
    if used != active {
        Some(used)
    } else {
        None
    }
}

/// Whether an HTTP status reports success (`200..300`).
pub fn is_success_status(status: u16) -> (r: bool)
    ensures
        r == (200 <= status < 300),
{
    200 <= status && status < 300
}

/// Whether the daily health check probes the primary endpoint: only when another one is
/// active.
pub fn should_probe_primary(active: usize) -> (r: bool)
    ensures
        r == (active != 0),
{
    active != 0
}

/// A call's walk over the endpoints: each is tried once, starting at the active one.
pub struct Failover {
    /// The active endpoint when the call began.
    pub start: usize,
    /// How many endpoints there are.
    pub count: usize,
    /// Attempts started so far.
    pub attempt: usize,
}

impl Failover {
    /// A call that begins at the active endpoint `start` of `count`.
    pub fn new(start: usize, count: usize) -> (r: Self)
        requires
            start < count,
        ensures
            r.start == start,
            r.count == count,
            r.attempt == 0,
    {
        Failover { start, count, attempt: 0 }
    }

    /// The endpoint of the next attempt, or none when every endpoint has been tried.
    pub fn next_endpoint(&mut self) -> (r: Option<usize>)
        requires
            old(self).start < old(self).count,
            old(self).attempt <= old(self).count,
        ensures
            final(self).start == old(self).start,
            final(self).count == old(self).count,
            final(self).attempt <= final(self).count,
            old(self).attempt < old(self).count ==> r == Some(
                endpoint_spec(
                    old(self).start as int,
                    old(self).attempt as int,
                    old(self).count as int,
                ) as usize,
            ) && final(self).attempt == old(self).attempt + 1,
            old(self).attempt == old(self).count ==> r is None && final(self).attempt
                == old(self).attempt,
    {
        if self.attempt < self.count {
            let e = endpoint_for_attempt(self.start, self.attempt, self.count);
            self.attempt = self.attempt + 1;
            Some(e)
        } else {
            None
        }
    }
}

/// Whether an endpoint answered a call: a success status, a body that reads as JSON, and
/// no `error` member in it; anything else sends the call on to the next endpoint.
pub fn rpc_answered(status: u16, parsed: bool, has_error_member: bool) -> (r: bool)
    ensures
        r == (200 <= status < 300 && parsed && !has_error_member),
{
    is_success_status(status) && parsed && !has_error_member
}

/// The error of a call that no endpoint answered, naming the last failure.
pub fn all_endpoints_failed(last_error: &str) -> (r: String)
    ensures
        r@ == "All RPC endpoints failed. Last error: "@ + last_error@,
{
    let mut out = String::new();
    append_str(&mut out, "All RPC endpoints failed. Last error: ");
    append_str(&mut out, last_error);
    assert(out@ =~= "All RPC endpoints failed. Last error: "@ + last_error@);
    out
}

} // verus!
