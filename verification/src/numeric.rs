use vstd::prelude::*;
use crate::text::chars_of;

verus! {

/// `n` is a multiple of `divisor`; a zero divisor divides nothing.
pub open spec fn spec_is_multiple_of(n: nat, divisor: nat) -> bool {
    divisor != 0 && n % divisor == 0
}

/// Whether `n` is a multiple of `divisor` (a zero divisor divides nothing).
pub fn is_multiple_of(n: usize, divisor: usize) -> (r: bool)
    ensures
        r == spec_is_multiple_of(n as nat, divisor as nat),
{
    divisor != 0 && n % divisor == 0
}

/// The character of a decimal digit below 10.
pub open spec fn digit_char(d: nat) -> char {
    (48 + d) as char
}

/// The decimal spelling of `v` without leading zeros (`0` for zero): what `{}` writes
/// for an unsigned integer.
pub open spec fn decimal_text(v: nat) -> Seq<char>
    decreases v,
{
    if v < 10 {
        seq![digit_char(v)]
    } else {
        decimal_text(v / 10).push(digit_char(v % 10))
    }
}

/// The value of a decimal digit character, `None` for any other character.
pub open spec fn decimal_digit_value(c: char) -> Option<nat> {
    if '0' <= c && c <= '9' {
        Some((c as u32 - 48) as nat)
    } else {
        None
    }
}

/// Every character of `cs` is a decimal digit.
pub open spec fn all_decimal(cs: Seq<char>) -> bool {
    forall|i: int| 0 <= i < cs.len() ==> (#[trigger] decimal_digit_value(cs[i])) is Some
}

/// The number that the decimal digits `cs` spell, most significant first.
pub open spec fn decimal_value(cs: Seq<char>) -> nat
    decreases cs.len(),
{
    if cs.len() == 0 {
        0
    } else {
        decimal_value(cs.drop_last()) * 10 + decimal_digit_value(cs.last()).unwrap_or(0)
    }
}

/// What `str::parse` gives for an unsigned integer type whose largest value is `max`:
/// an optional `+`, then at least one decimal digit and nothing else, and a value that
/// fits.
pub open spec fn parse_decimal_spec(cs: Seq<char>, max: nat) -> Option<nat> {
    let body = if cs.len() > 0 && cs[0] == '+' {
        cs.drop_first()
    } else {
        cs
    };
    if body.len() > 0 && all_decimal(body) && decimal_value(body) <= max {
        Some(decimal_value(body))
    } else {
        None
    }
}

/// A number spelled by a prefix of decimal digits is no larger than the whole.
pub proof fn lemma_decimal_prefix_le(cs: Seq<char>, k: int)
    requires
        0 <= k <= cs.len(),
    ensures
        decimal_value(cs.take(k)) <= decimal_value(cs),
    decreases cs.len(),
{
    if k < cs.len() {
        lemma_decimal_prefix_le(cs.drop_last(), k);
        assert(cs.drop_last().take(k) =~= cs.take(k));
    } else {
        assert(cs.take(k) =~= cs);
    }
}

/// The decimal character of a digit below 10.
pub fn decimal_digit_char(d: u8) -> (c: char)
    requires
        d < 10,
    ensures
        c == digit_char(d as nat),
{
    (48 + d) as char
}

/// Appends `x` in decimal.
pub fn push_decimal(out: &mut String, x: u64)
    ensures
        final(out)@ == old(out)@ + decimal_text(x as nat),
    decreases x,
{
    if x < 10 {
        out.push(decimal_digit_char(x as u8));
        assert(old(out)@.push(digit_char(x as nat)) =~= old(out)@ + decimal_text(x as nat));
    } else {
        push_decimal(out, x / 10);
        let d = (x % 10) as u8;
        out.push(decimal_digit_char(d));
        assert(old(out)@ + decimal_text(x as nat) =~= (old(out)@ + decimal_text(
            (x / 10) as nat,
        )).push(digit_char(d as nat)));
    }
}

/// Parses `s` as `str::parse` does an unsigned integer no larger than `max`.
pub fn parse_decimal(s: &str, max: u64) -> (r: Option<u64>)
    ensures
        match parse_decimal_spec(s@, max as nat) {
            Some(v) => r == Some(v as u64),
            None => r is None,
        },
{
    let cs = chars_of(s);
    let start: usize = if cs.len() > 0 && cs[0] == '+' {
        1
    } else {
        0
    };
    let ghost body = cs@.subrange(start as int, cs@.len() as int);
    proof {
        if start == 1 {
            assert(body =~= s@.drop_first());
        } else {
            assert(body =~= s@);
        }
    }
    if start >= cs.len() {
        return None;
    }
    let mut acc: u64 = 0;
    let mut i: usize = start;
    while i < cs.len()
        invariant
            cs@ == s@,
            start <= i <= cs.len(),
            body == cs@.subrange(start as int, cs@.len() as int),
            body.len() > 0,
            parse_decimal_spec(s@, max as nat) == (if all_decimal(body) && decimal_value(body)
                <= max {
                Some(decimal_value(body))
            } else {
                None
            }),
            all_decimal(body.take(i - start)),
            acc == decimal_value(body.take(i - start)),
            acc <= max,
        decreases cs.len() - i,
    {
        let c = cs[i];
        let k = i - start;
        assert(body[k as int] == c);
        assert(body.take(k + 1).drop_last() =~= body.take(k as int));
        if !('0' <= c && c <= '9') {
            assert(decimal_digit_value(body[k as int]) is None);
            assert(!all_decimal(body));
            return None;
        }
        let d = (c as u32 - 48) as u64;
        assert(decimal_value(body.take(k + 1)) == acc * 10 + d);
        if d > max || acc > (max - d) / 10 {
            assert(acc * 10 + d > max) by (nonlinear_arith)
                requires
                    d > max || acc > (max - d) / 10,
                    d < 10,
            ;
            proof {
                lemma_decimal_prefix_le(body, k + 1);
            }
            return None;
        }
        assert(acc * 10 + d <= max) by (nonlinear_arith)
            requires
                acc <= (max - d) / 10,
                d <= max,
        ;
        acc = acc * 10 + d;
        assert forall|j: int| 0 <= j < k + 1 implies (#[trigger] decimal_digit_value(
            body.take(k + 1)[j],
        )) is Some by {
            if j < k {
                assert(body.take(k + 1)[j] == body.take(k as int)[j]);
            }
        }
        i = i + 1;
    }
    assert(body.take(i - start) =~= body);
    Some(acc)
}

/// The next wait of a doubling backoff: twice the last one, at most `cap`.
pub fn next_backoff(delay: u64, cap: u64) -> (r: u64)
    requires
        delay <= cap,
        cap <= u64::MAX / 2,
    ensures
        r == (if 2 * delay < cap {
            2 * delay
        } else {
            cap as int
        }),
{
    if 2 * delay < cap {
        2 * delay
    } else {
        cap
    }
}

/// The decimal spelling of a number is all digits and reads back as that number.
pub proof fn lemma_decimal_roundtrip(v: nat)
    ensures
        decimal_text(v).len() >= 1,
        all_decimal(decimal_text(v)),
        decimal_value(decimal_text(v)) == v,
    decreases v,
{
    let t = decimal_text(v);
    if v < 10 {
        assert(t.drop_last() =~= Seq::<char>::empty());
        assert(decimal_digit_value(t[0]) == Some(v));
        assert(decimal_value(t) == decimal_value(t.drop_last()) * 10 + decimal_digit_value(
            t.last(),
        ).unwrap_or(0));
    } else {
        lemma_decimal_roundtrip(v / 10);
        let prev = decimal_text(v / 10);
        assert(t.drop_last() =~= prev);
        assert(decimal_digit_value(t.last()) == Some(v % 10));
        assert(decimal_value(t) == decimal_value(prev) * 10 + v % 10);
        assert(v == (v / 10) * 10 + v % 10);
        assert forall|i: int| 0 <= i < t.len() implies (#[trigger] decimal_digit_value(t[i])) is Some by {
            if i < prev.len() {
                assert(t[i] == prev[i]);
            }
        }
    }
}

/// Reading back the decimal spelling of a number that fits gives the number.
pub proof fn lemma_parse_decimal_text(v: nat, max: nat)
    requires
        v <= max,
    ensures
        parse_decimal_spec(decimal_text(v), max) == Some(v),
{
    lemma_decimal_roundtrip(v);
    let t = decimal_text(v);
    assert(decimal_digit_value(t[0]) is Some);
}

} // verus!
