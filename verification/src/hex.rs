use vstd::prelude::*;
use vstd::arithmetic::div_mod::*;
use vstd::arithmetic::mul::*;

verus! {

/// `16` raised to `n`.
pub open spec fn pow16(n: nat) -> nat
    decreases n,
{
    if n == 0 {
        1
    } else {
        16 * pow16((n - 1) as nat)
    }
}

/// The value of a hexadecimal digit character, in either case.
pub open spec fn hex_digit_value(c: char) -> Option<u8> {
    let u = c as u32;
    if 48 <= u && u <= 57 {
        Some((u - 48) as u8)
    } else if 97 <= u && u <= 102 {
        Some((u - 87) as u8)
    } else if 65 <= u && u <= 70 {
        Some((u - 55) as u8)
    } else {
        None
    }
}

/// The hexadecimal digits of `cs`, in order, every other character dropped.
pub open spec fn hex_digits(cs: Seq<char>) -> Seq<u8>
    decreases cs.len(),
{
    if cs.len() == 0 {
        Seq::empty()
    } else {
        let rest = hex_digits(cs.drop_first());
        match hex_digit_value(cs[0]) {
            Some(d) => seq![d] + rest,
            None => rest,
        }
    }
}

/// Every character of `cs` is a hexadecimal digit.
pub open spec fn all_hex(cs: Seq<char>) -> bool {
    forall|i: int| 0 <= i < cs.len() ==> (#[trigger] hex_digit_value(cs[i])) is Some
}

/// Every element of `ds` is a digit below 16.
pub open spec fn all_nibbles(ds: Seq<u8>) -> bool {
    forall|i: int| 0 <= i < ds.len() ==> #[trigger] ds[i] < 16
}

/// The number that the digits `ds` denote in base 16, most significant first.
pub open spec fn hex_value(ds: Seq<u8>) -> nat
    decreases ds.len(),
{
    if ds.len() == 0 {
        0
    } else {
        hex_value(ds.drop_last()) * 16 + ds.last() as nat
    }
}

/// The lowercase character for a digit below 16.
pub open spec fn nibble_char_spec(d: u8) -> char {
    if d < 10 {
        (48 + d) as char
    } else {
        (87 + d) as char
    }
}

pub proof fn lemma_pow16_positive(n: nat)
    ensures
        pow16(n) > 0,
    decreases n,
{
    if n > 0 {
        lemma_pow16_positive((n - 1) as nat);
    }
}

pub proof fn lemma_pow16_add(a: nat, b: nat)
    ensures
        pow16(a + b) == pow16(a) * pow16(b),
    decreases a,
{
    if a == 0 {
        assert(pow16(0) == 1);
        assert(a + b == b);
    } else {
        let a1 = (a - 1) as nat;
        lemma_pow16_add(a1, b);
        assert(a + b == (a1 + b) + 1);
        assert(pow16(a + b) == 16 * pow16(a1 + b));
        assert(pow16(a) == 16 * pow16(a1));
        let x = pow16(a1);
        let y = pow16(b);
        assert(16 * (x * y) == (16 * x) * y) by (nonlinear_arith);
    }
}

pub proof fn lemma_pow16_constants()
    ensures
        pow16(16) == 0x1_0000_0000_0000_0000,
        pow16(32) == 0x1_0000_0000_0000_0000_0000_0000_0000_0000,
        pow16(48) == 0x1_0000_0000_0000_0000_0000_0000_0000_0000_0000_0000_0000_0000,
        pow16(64)
            == 0x1_0000_0000_0000_0000_0000_0000_0000_0000_0000_0000_0000_0000_0000_0000_0000_0000,
{
    reveal_with_fuel(pow16, 17);
    assert(pow16(16) == 0x1_0000_0000_0000_0000);
    lemma_pow16_add(16, 16);
    lemma_pow16_add(32, 16);
    lemma_pow16_add(48, 16);
}

pub proof fn lemma_pow16_monotonic(a: nat, b: nat)
    requires
        a <= b,
    ensures
        pow16(a) <= pow16(b),
    decreases b,
{
    if a < b {
        lemma_pow16_monotonic(a, (b - 1) as nat);
        lemma_pow16_positive((b - 1) as nat);
    }
}

/// Adding a digit in front multiplies it by the weight of its position.
pub proof fn lemma_hex_value_prepend(d: u8, ds: Seq<u8>)
    ensures
        hex_value(seq![d] + ds) == d * pow16(ds.len()) + hex_value(ds),
    decreases ds.len(),
{
    let s = seq![d] + ds;
    if ds.len() == 0 {
        assert(s.drop_last() =~= Seq::<u8>::empty());
        assert(hex_value(s.drop_last()) == 0);
        assert(s.last() == d);
        assert(pow16(0) == 1);
    } else {
        assert(s.drop_last() =~= seq![d] + ds.drop_last());
        assert(s.last() == ds.last());
        lemma_hex_value_prepend(d, ds.drop_last());
        let p = pow16((ds.len() - 1) as nat);
        assert(pow16(ds.len()) == 16 * p);
        let h = hex_value(ds.drop_last());
        assert(hex_value(s) == hex_value(s.drop_last()) * 16 + s.last());
        assert(hex_value(ds) == h * 16 + ds.last());
        assert((d * p + h) * 16 + ds.last() == d * (16 * p) + (h * 16 + ds.last()))
            by (nonlinear_arith);
    }
}

/// The value of a concatenation: the front part is shifted by the length of the back part.
pub proof fn lemma_hex_value_concat(a: Seq<u8>, b: Seq<u8>)
    ensures
        hex_value(a + b) == hex_value(a) * pow16(b.len()) + hex_value(b),
    decreases b.len(),
{
    if b.len() == 0 {
        assert(a + b =~= a);
        assert(hex_value(b) == 0);
        assert(pow16(0) == 1);
    } else {
        assert((a + b).drop_last() =~= a + b.drop_last());
        assert((a + b).last() == b.last());
        lemma_hex_value_concat(a, b.drop_last());
        let p = pow16((b.len() - 1) as nat);
        assert(pow16(b.len()) == 16 * p);
        let ha = hex_value(a);
        let hb = hex_value(b.drop_last());
        assert(hex_value(a + b) == hex_value((a + b).drop_last()) * 16 + (a + b).last());
        assert(hex_value(b) == hb * 16 + b.last());
        assert((ha * p + hb) * 16 + b.last() == ha * (16 * p) + (hb * 16 + b.last()))
            by (nonlinear_arith);
    }
}

/// Digits below 16 denote a number below `16^len`.
pub proof fn lemma_hex_value_bound(ds: Seq<u8>)
    requires
        all_nibbles(ds),
    ensures
        hex_value(ds) < pow16(ds.len()),
    decreases ds.len(),
{
    if ds.len() > 0 {
        assert(all_nibbles(ds.drop_last()));
        lemma_hex_value_bound(ds.drop_last());
        let p = pow16((ds.len() - 1) as nat);
        assert(hex_value(ds.drop_last()) * 16 + ds.last() < 16 * p) by (nonlinear_arith)
            requires
                hex_value(ds.drop_last()) < p,
                ds.last() < 16,
        ;
    }
}

/// The digits that `hex_digits` extracts are below 16.
pub proof fn lemma_hex_digits_nibbles(cs: Seq<char>)
    ensures
        all_nibbles(hex_digits(cs)),
        hex_digits(cs).len() <= cs.len(),
    decreases cs.len(),
{
    if cs.len() > 0 {
        lemma_hex_digits_nibbles(cs.drop_first());
    }
}

/// Splitting the text splits its digits.
pub proof fn lemma_hex_digits_concat(a: Seq<char>, b: Seq<char>)
    ensures
        hex_digits(a + b) == hex_digits(a) + hex_digits(b),
    decreases a.len(),
{
    if a.len() == 0 {
        assert(a + b =~= b);
        assert(hex_digits(a) + hex_digits(b) =~= hex_digits(b));
    } else {
        assert((a + b).drop_first() =~= a.drop_first() + b);
        lemma_hex_digits_concat(a.drop_first(), b);
        match hex_digit_value(a[0]) {
            Some(d) => {
                assert(seq![d] + (hex_digits(a.drop_first()) + hex_digits(b)) =~= (seq![d]
                    + hex_digits(a.drop_first())) + hex_digits(b));
            },
            None => {},
        }
    }
}

/// Text made only of digit characters keeps every character as a digit.
pub proof fn lemma_hex_digits_all_hex(cs: Seq<char>)
    requires
        all_hex(cs),
    ensures
        hex_digits(cs).len() == cs.len(),
        forall|i: int|
            0 <= i < cs.len() ==> Some(#[trigger] hex_digits(cs)[i]) == hex_digit_value(cs[i]),
    decreases cs.len(),
{
    if cs.len() > 0 {
        assert(all_hex(cs.drop_first())) by {
            assert forall|i: int| 0 <= i < cs.drop_first().len() implies (#[trigger] hex_digit_value(
                cs.drop_first()[i])) is Some by {
                assert(cs.drop_first()[i] == cs[i + 1]);
            }
        }
        lemma_hex_digits_all_hex(cs.drop_first());
        assert(hex_digit_value(cs[0]) is Some);
        let d = hex_digit_value(cs[0])->0;
        assert forall|i: int| 0 <= i < cs.len() implies Some(
            #[trigger] hex_digits(cs)[i],
        ) == hex_digit_value(cs[i]) by {
            if i > 0 {
                assert(hex_digits(cs)[i] == hex_digits(cs.drop_first())[i - 1]);
                assert(cs.drop_first()[i - 1] == cs[i]);
            }
        }
    }
}

/// The lowercase character of each digit reads back as that digit.
pub proof fn lemma_nibble_char_roundtrip(d: u8)
    requires
        d < 16,
    ensures
        hex_digit_value(nibble_char_spec(d)) == Some(d),
{
}

/// Spelling digits as lowercase characters and reading them back gives the same digits.
pub proof fn lemma_hex_digits_of_nibble_chars(ds: Seq<u8>)
    requires
        all_nibbles(ds),
    ensures
        hex_digits(ds.map_values(|d: u8| nibble_char_spec(d))) == ds,
    decreases ds.len(),
{
    let cs = ds.map_values(|d: u8| nibble_char_spec(d));
    if ds.len() > 0 {
        assert(all_nibbles(ds.drop_first()));
        assert(cs.drop_first() =~= ds.drop_first().map_values(|d: u8| nibble_char_spec(d)));
        lemma_hex_digits_of_nibble_chars(ds.drop_first());
        lemma_nibble_char_roundtrip(ds[0]);
        assert(seq![ds[0]] + ds.drop_first() =~= ds);
    } else {
        assert(cs.len() == 0);
    }
}

/// The lowest `width` hexadecimal digits of `v` in lowercase, most significant first,
/// zero-padded: what `{:0width$x}` writes for a value below `16^width`.
pub open spec fn fixed_hex_text(v: nat, width: nat) -> Seq<char>
    decreases width,
{
    if width == 0 {
        Seq::empty()
    } else {
        fixed_hex_text(v / 16, (width - 1) as nat).push(nibble_char_spec((v % 16) as u8))
    }
}

/// The lowercase hexadecimal spelling of `v` without leading zeros (`0` for zero):
/// what `{:x}` writes.
pub open spec fn lower_hex_text(v: nat) -> Seq<char>
    decreases v,
{
    if v < 16 {
        seq![nibble_char_spec(v as u8)]
    } else {
        lower_hex_text(v / 16).push(nibble_char_spec((v % 16) as u8))
    }
}

/// Reading back one more lowercase digit at the end.
proof fn lemma_hex_digits_push_nibble(cs: Seq<char>, d: u8)
    requires
        d < 16,
    ensures
        hex_digits(cs.push(nibble_char_spec(d))) == hex_digits(cs).push(d),
{
    let c = nibble_char_spec(d);
    lemma_hex_digits_concat(cs, seq![c]);
    assert(cs.push(c) =~= cs + seq![c]);
    assert(seq![c].drop_first() =~= Seq::<char>::empty());
    assert(hex_digits(Seq::<char>::empty()) =~= Seq::<u8>::empty());
    assert(hex_digits(seq![c]) =~= seq![d]);
    assert(hex_digits(cs) + seq![d] =~= hex_digits(cs).push(d));
}

/// The fixed-width spelling is all digits and reads back as `v` modulo `16^width`.
pub proof fn lemma_fixed_hex_text(v: nat, width: nat)
    ensures
        fixed_hex_text(v, width).len() == width,
        all_hex(fixed_hex_text(v, width)),
        hex_digits(fixed_hex_text(v, width)).len() == width,
        hex_value(hex_digits(fixed_hex_text(v, width))) == v % pow16(width),
    decreases width,
{
    let t = fixed_hex_text(v, width);
    if width == 0 {
        assert(t =~= Seq::<char>::empty());
        assert(hex_digits(t) =~= Seq::<u8>::empty());
        assert(pow16(0) == 1);
    } else {
        let w1 = (width - 1) as nat;
        let prev = fixed_hex_text(v / 16, w1);
        let d = (v % 16) as u8;
        lemma_fixed_hex_text(v / 16, w1);
        lemma_hex_digits_push_nibble(prev, d);
        lemma_nibble_char_roundtrip(d);
        assert forall|i: int| 0 <= i < t.len() implies (#[trigger] hex_digit_value(t[i])) is Some by {
            if i < prev.len() {
                assert(t[i] == prev[i]);
            }
        }
        let ds = hex_digits(prev).push(d);
        assert(ds.drop_last() =~= hex_digits(prev));
        assert(hex_value(ds) == hex_value(hex_digits(prev)) * 16 + d);
        lemma_pow16_positive(w1);
        lemma_mod_breakdown(v as int, 16, pow16(w1) as int);
        assert(pow16(width) == 16 * pow16(w1));
        assert(16 * ((v / 16) % pow16(w1)) + v % 16 == ((v / 16) % pow16(w1)) * 16 + v % 16);
    }
}

/// The unpadded spelling is all digits and reads back as `v`.
pub proof fn lemma_lower_hex_text(v: nat)
    ensures
        lower_hex_text(v).len() >= 1,
        all_hex(lower_hex_text(v)),
        hex_value(hex_digits(lower_hex_text(v))) == v,
    decreases v,
{
    let t = lower_hex_text(v);
    if v < 16 {
        lemma_nibble_char_roundtrip(v as u8);
        lemma_hex_digits_push_nibble(Seq::<char>::empty(), v as u8);
        assert(Seq::<char>::empty().push(nibble_char_spec(v as u8)) =~= t);
        assert(hex_digits(Seq::<char>::empty()) =~= Seq::<u8>::empty());
        let ds = Seq::<u8>::empty().push(v as u8);
        assert(ds.drop_last() =~= Seq::<u8>::empty());
        assert(hex_value(ds) == hex_value(Seq::<u8>::empty()) * 16 + v);
    } else {
        let prev = lower_hex_text(v / 16);
        let d = (v % 16) as u8;
        lemma_lower_hex_text(v / 16);
        lemma_hex_digits_push_nibble(prev, d);
        lemma_nibble_char_roundtrip(d);
        assert forall|i: int| 0 <= i < t.len() implies (#[trigger] hex_digit_value(t[i])) is Some by {
            if i < prev.len() {
                assert(t[i] == prev[i]);
            }
        }
        let ds = hex_digits(prev).push(d);
        assert(ds.drop_last() =~= hex_digits(prev));
        assert(hex_value(ds) == hex_value(hex_digits(prev)) * 16 + d);
    }
}

/// The uppercase character for a digit below 16.
pub open spec fn upper_nibble_char_spec(d: u8) -> char {
    if d < 10 {
        (48 + d) as char
    } else {
        (55 + d) as char
    }
}

/// The uppercase hexadecimal spelling of `v` without leading zeros (`0` for zero): what
/// `{:X}` writes.
pub open spec fn upper_hex_text(v: nat) -> Seq<char>
    decreases v,
{
    if v < 16 {
        seq![upper_nibble_char_spec(v as u8)]
    } else {
        upper_hex_text(v / 16).push(upper_nibble_char_spec((v % 16) as u8))
    }
}

/// Reading back one more digit character at the end.
proof fn lemma_hex_digits_push_char(cs: Seq<char>, c: char, d: u8)
    requires
        hex_digit_value(c) == Some(d),
    ensures
        hex_digits(cs.push(c)) == hex_digits(cs).push(d),
{
    lemma_hex_digits_concat(cs, seq![c]);
    assert(cs.push(c) =~= cs + seq![c]);
    assert(seq![c].drop_first() =~= Seq::<char>::empty());
    assert(hex_digits(Seq::<char>::empty()) =~= Seq::<u8>::empty());
    assert(hex_digits(seq![c]) =~= seq![d]);
    assert(hex_digits(cs) + seq![d] =~= hex_digits(cs).push(d));
}

/// The uppercase spelling is all digits, starts with no `x`, and reads back as `v`.
pub proof fn lemma_upper_hex_text(v: nat)
    ensures
        upper_hex_text(v).len() >= 1,
        all_hex(upper_hex_text(v)),
        hex_value(hex_digits(upper_hex_text(v))) == v,
    decreases v,
{
    let t = upper_hex_text(v);
    if v < 16 {
        lemma_hex_digits_push_char(Seq::<char>::empty(), upper_nibble_char_spec(v as u8), v as u8);
        assert(Seq::<char>::empty().push(upper_nibble_char_spec(v as u8)) =~= t);
        assert(hex_digits(Seq::<char>::empty()) =~= Seq::<u8>::empty());
        let ds = Seq::<u8>::empty().push(v as u8);
        assert(ds.drop_last() =~= Seq::<u8>::empty());
        assert(hex_value(ds) == hex_value(Seq::<u8>::empty()) * 16 + v);
    } else {
        let prev = upper_hex_text(v / 16);
        let d = (v % 16) as u8;
        lemma_upper_hex_text(v / 16);
        lemma_hex_digits_push_char(prev, upper_nibble_char_spec(d), d);
        assert forall|i: int| 0 <= i < t.len() implies (#[trigger] hex_digit_value(t[i])) is Some by {
            if i < prev.len() {
                assert(t[i] == prev[i]);
            }
        }
        let ds = hex_digits(prev).push(d);
        assert(ds.drop_last() =~= hex_digits(prev));
        assert(hex_value(ds) == hex_value(hex_digits(prev)) * 16 + d);
    }
}

/// Appends the lowest `width` digits of `x`, zero-padded, in lowercase.
pub fn push_fixed_hex(out: &mut String, x: u64, width: usize)
    ensures
        final(out)@ == old(out)@ + fixed_hex_text(x as nat, width as nat),
    decreases width,
{
    if width > 0 {
        push_fixed_hex(out, x / 16, width - 1);
        let d = (x % 16) as u8;
        out.push(nibble_char(d));
    }
    proof {
        if width == 0 {
            assert(old(out)@ + fixed_hex_text(x as nat, 0) =~= old(out)@);
        } else {
            assert(old(out)@ + fixed_hex_text(x as nat, width as nat) =~= (old(out)@
                + fixed_hex_text((x / 16) as nat, (width - 1) as nat)).push(
                nibble_char_spec((x % 16) as u8),
            ));
        }
    }
}

/// Appends `x` in lowercase hexadecimal without leading zeros.
pub fn push_lower_hex(out: &mut String, x: u64)
    ensures
        final(out)@ == old(out)@ + lower_hex_text(x as nat),
    decreases x,
{
    if x < 16 {
        out.push(nibble_char(x as u8));
        assert(old(out)@.push(nibble_char_spec(x as u8)) =~= old(out)@ + lower_hex_text(x as nat));
    } else {
        push_lower_hex(out, x / 16);
        let d = (x % 16) as u8;
        out.push(nibble_char(d));
        assert(old(out)@ + lower_hex_text(x as nat) =~= (old(out)@ + lower_hex_text(
            (x / 16) as nat,
        )).push(nibble_char_spec(d)));
    }
}

/// The value of a hexadecimal digit character, `None` for any other character.
pub fn hex_digit(c: char) -> (r: Option<u8>)
    ensures
        r == hex_digit_value(c),
{
    let u = c as u32;
    if 48 <= u && u <= 57 {
        Some((u - 48) as u8)
    } else if 97 <= u && u <= 102 {
        Some((u - 87) as u8)
    } else if 65 <= u && u <= 70 {
        Some((u - 55) as u8)
    } else {
        None
    }
}

/// The lowercase hexadecimal character of a digit below 16.
pub fn nibble_char(d: u8) -> (c: char)
    requires
        d < 16,
    ensures
        c == nibble_char_spec(d),
{
    if d < 10 {
        (48 + d) as char
    } else {
        (87 + d) as char
    }
}

} // verus!
