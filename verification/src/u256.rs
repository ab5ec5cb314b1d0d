use vstd::prelude::*;
use vstd::arithmetic::div_mod::*;
use crate::hex::{
    all_hex, all_nibbles, fixed_hex_text, hex_digit, hex_digit_value, hex_digits,
    lemma_fixed_hex_text, lemma_hex_digits_concat, push_fixed_hex, hex_value, lemma_hex_digits_nibbles,
    lemma_hex_value_bound, lemma_hex_value_concat, lemma_hex_value_prepend, lemma_pow16_add, lemma_pow16_constants,
    lemma_pow16_monotonic, lemma_pow16_positive, pow16,
};
use crate::text::chars_of;
use std::cmp::Ordering;

verus! {

broadcast use vstd::array::group_array_axioms;

/// A 256-bit unsigned integer held as four 64-bit limbs, least significant first,
/// as the HEX contract's words arrive from the chain.
#[derive(Clone, Copy, PartialEq, Eq, Debug)]
pub struct U256(pub [u64; 4]);

/// `2^64`, the weight of one limb.
pub open spec fn limb_base() -> nat {
    0x1_0000_0000_0000_0000
}

/// `2^256`, one past the largest value.
pub open spec fn u256_modulus() -> nat {
    0x1_0000_0000_0000_0000 * 0x1_0000_0000_0000_0000_0000_0000_0000_0000_0000_0000_0000_0000
}

/// The number that four limbs denote, least significant first.
pub open spec fn limbs_value(l0: u64, l1: u64, l2: u64, l3: u64) -> nat {
    l0 as nat + l1 as nat * 0x1_0000_0000_0000_0000 + l2 as nat
        * 0x1_0000_0000_0000_0000_0000_0000_0000_0000 + l3 as nat
        * 0x1_0000_0000_0000_0000_0000_0000_0000_0000_0000_0000_0000_0000
}

/// The text after a leading `0x`, or the whole text when it has none.
pub open spec fn strip_lower_0x(cs: Seq<char>) -> Seq<char> {
    if cs.len() >= 2 && cs[0] == '0' && cs[1] == 'x' {
        cs.subrange(2, cs.len() as int)
    } else {
        cs
    }
}

/// What `U256::from_hex` reads from a text: its hexadecimal digits after an optional `0x`,
/// any other character skipped, the number taken modulo `2^256`.
pub open spec fn from_hex_spec(cs: Seq<char>) -> nat {
    hex_value(hex_digits(strip_lower_0x(cs))) % u256_modulus()
}

/// One digit more in front adds its weight to the limb that holds its position.
proof fn lemma_accumulate_digit(
    o0: u64,
    o1: u64,
    o2: u64,
    o3: u64,
    l0: u64,
    l1: u64,
    l2: u64,
    l3: u64,
    limb_idx: nat,
    nib: nat,
    d: u8,
    old_ds: Seq<u8>,
)
    requires
        limb_idx < 4,
        nib < 16,
        d < 16,
        old_ds.len() == 16 * limb_idx + nib,
        limbs_value(o0, o1, o2, o3) == hex_value(old_ds),
        limb_idx == 0 ==> l0 == o0 + d * pow16(nib) && l1 == o1 && l2 == o2 && l3 == o3,
        limb_idx == 1 ==> l0 == o0 && l1 == o1 + d * pow16(nib) && l2 == o2 && l3 == o3,
        limb_idx == 2 ==> l0 == o0 && l1 == o1 && l2 == o2 + d * pow16(nib) && l3 == o3,
        limb_idx == 3 ==> l0 == o0 && l1 == o1 && l2 == o2 && l3 == o3 + d * pow16(nib),
    ensures
        limbs_value(l0, l1, l2, l3) == hex_value(seq![d] + old_ds),
{
    let k = old_ds.len();
    let w = pow16(nib);
    let p = pow16(16 * limb_idx);
    lemma_hex_value_prepend(d, old_ds);
    lemma_pow16_add(16 * limb_idx, nib);
    lemma_pow16_constants();
    assert(pow16(k) == p * w);
    let x = d * w;
    assert(d * pow16(k) == x * p) by (nonlinear_arith)
        requires
            pow16(k) == p * w,
            x == d * w,
    ;
    assert(hex_value(seq![d] + old_ds) == x * p + hex_value(old_ds));
    if limb_idx == 0 {
        assert(p == 1);
        assert(x * p == x);
    } else if limb_idx == 1 {
        assert(p == 0x1_0000_0000_0000_0000);
        assert(x * p == x * 0x1_0000_0000_0000_0000);
    } else if limb_idx == 2 {
        assert(p == 0x1_0000_0000_0000_0000_0000_0000_0000_0000);
        assert(x * p == x * 0x1_0000_0000_0000_0000_0000_0000_0000_0000);
    } else {
        assert(p == 0x1_0000_0000_0000_0000_0000_0000_0000_0000_0000_0000_0000_0000);
        assert(x * p == x * 0x1_0000_0000_0000_0000_0000_0000_0000_0000_0000_0000_0000_0000);
    }
}

/// The text that `U256::to_lower_hex` writes.
pub open spec fn lower_hex_spec(u: U256) -> Seq<char> {
    fixed_hex_text(u.0[3] as nat, 16) + fixed_hex_text(u.0[2] as nat, 16) + fixed_hex_text(
        u.0[1] as nat,
        16,
    ) + fixed_hex_text(u.0[0] as nat, 16)
}

impl U256 {
    /// The number this value denotes.
    pub open spec fn value(self) -> nat {
        limbs_value(self.0[0], self.0[1], self.0[2], self.0[3])
    }

    /// Zero.
    pub fn zero() -> (r: Self)
        ensures
            r.value() == 0,
    {
        let r = U256([0, 0, 0, 0]);
        assert(r.0[0] == 0 && r.0[1] == 0 && r.0[2] == 0 && r.0[3] == 0);
        r
    }

    /// Reads the hexadecimal number in `cs[lo..hi]` as `from_hex` does.
    #[verifier::rlimit(40)]
    pub fn from_hex_chars(cs: &Vec<char>, lo: usize, hi: usize) -> (r: Self)
        requires
            lo <= hi <= cs.len(),
        ensures
            r.value() == from_hex_spec(cs@.subrange(lo as int, hi as int)),
    {
        let n = hi;
        let start: usize = if hi - lo >= 2 && cs[lo] == '0' && cs[lo + 1] == 'x' {
            lo + 2
        } else {
            lo
        };
        let ghost body = cs@.subrange(start as int, n as int);
        assert(body =~= strip_lower_0x(cs@.subrange(lo as int, hi as int)));
        let mut l0: u64 = 0;
        let mut l1: u64 = 0;
        let mut l2: u64 = 0;
        let mut l3: u64 = 0;
        let mut limb_idx: usize = 0;
        let mut nib: usize = 0;
        let mut w: u64 = 1;
        let mut i = n;
        proof {
            lemma_pow16_constants();
            assert(cs@.subrange(n as int, n as int) =~= Seq::<char>::empty());
        }
        while i > start
            invariant
                start <= i <= n,
                n <= cs@.len(),
                body == cs@.subrange(start as int, n as int),
                limb_idx <= 4,
                nib < 16,
                limb_idx == 4 ==> nib == 0,
                pow16(16) == limb_base(),
                pow16(64) == u256_modulus(),
                limb_idx < 4 ==> hex_digits(cs@.subrange(i as int, n as int)).len() == 16 * limb_idx
                    + nib,
                limb_idx == 4 ==> hex_digits(cs@.subrange(i as int, n as int)).len() >= 64,
                limb_idx < 4 ==> limbs_value(l0, l1, l2, l3) == hex_value(
                    hex_digits(cs@.subrange(i as int, n as int)),
                ),
                limb_idx == 4 ==> limbs_value(l0, l1, l2, l3) == hex_value(
                    hex_digits(cs@.subrange(i as int, n as int)),
                ) % u256_modulus(),
                w == pow16(nib as nat),
                limb_idx == 0 ==> l0 < w && l1 == 0 && l2 == 0 && l3 == 0,
                limb_idx == 1 ==> l1 < w && l2 == 0 && l3 == 0,
                limb_idx == 2 ==> l2 < w && l3 == 0,
                limb_idx == 3 ==> l3 < w,
            decreases i,
        {
            i = i - 1;
            let c = cs[i];
            let ghost old_ds = hex_digits(cs@.subrange(i + 1, n as int));
            proof {
                assert(cs@.subrange(i as int, n as int).drop_first() =~= cs@.subrange(
                    i + 1,
                    n as int,
                ));
                lemma_hex_digits_nibbles(cs@.subrange(i + 1, n as int));
                lemma_hex_value_bound(old_ds);
            }
            assert(cs@.subrange(i as int, n as int)[0] == c);
            match hex_digit(c) {
                None => {
                    assert(hex_digits(cs@.subrange(i as int, n as int)) == old_ds);
                },
                Some(d) => {
                    let ghost new_ds = seq![d] + old_ds;
                    proof {
                        lemma_hex_value_prepend(d, old_ds);
                        assert(hex_digits(cs@.subrange(i as int, n as int)) == new_ds);
                    }
                    if limb_idx < 4 {
                        proof {
                            lemma_pow16_positive(nib as nat);
                            lemma_pow16_monotonic(nib as nat, 15);
                            reveal_with_fuel(pow16, 16);
                            assert(d * w <= 15 * w) by (nonlinear_arith)
                                requires
                                    d < 16,
                            ;
                        }
                        let ghost (o0, o1, o2, o3) = (l0, l1, l2, l3);
                        if limb_idx == 0 {
                            l0 = l0 + d as u64 * w;
                        } else if limb_idx == 1 {
                            l1 = l1 + d as u64 * w;
                        } else if limb_idx == 2 {
                            l2 = l2 + d as u64 * w;
                        } else {
                            l3 = l3 + d as u64 * w;
                        }
                        proof {
                            lemma_accumulate_digit(
                                o0,
                                o1,
                                o2,
                                o3,
                                l0,
                                l1,
                                l2,
                                l3,
                                limb_idx as nat,
                                nib as nat,
                                d,
                                old_ds,
                            );
                        }
                        if nib == 15 {
                            nib = 0;
                            limb_idx = limb_idx + 1;
                            w = 1;
                            proof {
                                if limb_idx == 4 {
                                    lemma_hex_value_bound(new_ds);
                                    lemma_pow16_constants();
                                    lemma_small_mod(hex_value(new_ds), u256_modulus());
                                }
                            }
                        } else {
                            proof {
                                lemma_pow16_monotonic(nib as nat, 14);
                                reveal_with_fuel(pow16, 15);
                                assert(pow16((nib + 1) as nat) == 16 * pow16(nib as nat));
                            }
                            nib = nib + 1;
                            w = w * 16;
                        }
                    } else {
                        proof {
                            let k: nat = old_ds.len();
                            lemma_pow16_add(64, (k - 64) as nat);
                            let m = u256_modulus() as int;
                            let q = d * pow16((k - 64) as nat);
                            assert(d * pow16(k) == m * q) by (nonlinear_arith)
                                requires
                                    pow16(k) == m * pow16((k - 64) as nat),
                                    q == d * pow16((k - 64) as nat),
                            ;
                            lemma_mod_multiples_vanish(q as int, hex_value(old_ds) as int, m);
                            lemma_pow16_constants();
                        }
                    }
                },
            }
        }
        proof {
            let ds = hex_digits(body);
            if limb_idx < 4 {
                lemma_pow16_monotonic(ds.len(), 64);
                lemma_hex_digits_nibbles(body);
                lemma_hex_value_bound(ds);
                lemma_small_mod(hex_value(ds), u256_modulus());
            }
        }
        U256([l0, l1, l2, l3])
    }

    /// Reads a hexadecimal number: an optional `0x` prefix, then digits of either case;
    /// characters that are no digit are skipped, and only the last 64 digits count.
    pub fn from_hex(s: &str) -> (r: Self)
        ensures
            r.value() == from_hex_spec(s@),
    {
        let cs = chars_of(s);
        let r = Self::from_hex_chars(&cs, 0, cs.len());
        assert(cs@.subrange(0, cs@.len() as int) =~= s@);
        r
    }

    /// `self - rhs`, wrapping around modulo `2^256` as the limbs borrow from each other.
    pub fn sub(self, rhs: u64) -> (r: Self)
        ensures
            r.value() as int == (self.value() as int - rhs as int) % (u256_modulus() as int),
    {
        let a0 = self.0[0];
        let a1 = self.0[1];
        let a2 = self.0[2];
        let a3 = self.0[3];
        let (r0, b0): (u64, u64) = if a0 >= rhs {
            (a0 - rhs, 0)
        } else {
            ((u64::MAX - rhs) + a0 + 1, 1)
        };
        let (r1, b1): (u64, u64) = if a1 >= b0 {
            (a1 - b0, 0)
        } else {
            (u64::MAX, 1)
        };
        let (r2, b2): (u64, u64) = if a2 >= b1 {
            (a2 - b1, 0)
        } else {
            (u64::MAX, 1)
        };
        let (r3, b3): (u64, u64) = if a3 >= b2 {
            (a3 - b2, 0)
        } else {
            (u64::MAX, 1)
        };
        let r = U256([r0, r1, r2, r3]);
        proof {
            let m = u256_modulus() as int;
            let x = self.value() as int - rhs as int;
            let c: int = 0x1_0000_0000_0000_0000;
            assert(r.0[0] == r0 && r.0[1] == r1 && r.0[2] == r2 && r.0[3] == r3);
            assert(r0 as int == a0 - rhs + b0 * c);
            assert(r1 as int == a1 - b0 + b1 * c);
            assert(r2 as int == a2 - b1 + b2 * c);
            assert(r3 as int == a3 - b2 + b3 * c);
            assert(m == c * c * c * c);
            assert(r.value() as int == x + b3 * m);
            lemma_fundamental_div_mod_converse_mod(x, m, -(b3 as int), r.value() as int);
        }
        r
    }

    /// Orders two values by the numbers they denote, the most significant limb first.
    pub fn compare(&self, other: &Self) -> (o: Ordering)
        ensures
            (o is Less) <==> self.value() < other.value(),
            (o is Equal) <==> self.value() == other.value(),
            (o is Greater) <==> self.value() > other.value(),
    {
        let a = self.0;
        let b = other.0;
        if a[3] != b[3] {
            if a[3] < b[3] {
                Ordering::Less
            } else {
                Ordering::Greater
            }
        } else if a[2] != b[2] {
            if a[2] < b[2] {
                Ordering::Less
            } else {
                Ordering::Greater
            }
        } else if a[1] != b[1] {
            if a[1] < b[1] {
                Ordering::Less
            } else {
                Ordering::Greater
            }
        } else if a[0] != b[0] {
            if a[0] < b[0] {
                Ordering::Less
            } else {
                Ordering::Greater
            }
        } else {
            Ordering::Equal
        }
    }

    /// Whether this value is above zero.
    pub fn is_positive(&self) -> (r: bool)
        ensures
            r == (self.value() > 0),
    {
        self.0[0] != 0 || self.0[1] != 0 || self.0[2] != 0 || self.0[3] != 0
    }

    /// The 64 lowercase hexadecimal digits of this value, most significant limb first,
    /// each limb zero-padded to 16 digits.
    pub fn to_lower_hex(&self) -> (r: String)
        ensures
            r@ == lower_hex_spec(*self),
    {
        let mut out = String::new();
        push_fixed_hex(&mut out, self.0[3], 16);
        push_fixed_hex(&mut out, self.0[2], 16);
        push_fixed_hex(&mut out, self.0[1], 16);
        push_fixed_hex(&mut out, self.0[0], 16);
        proof {
            assert(out@ =~= lower_hex_spec(*self));
        }
        out
    }
}

/// Two values that denote the same number have the same limbs.
pub proof fn lemma_value_injective(a: U256, b: U256)
    requires
        a.value() == b.value(),
    ensures
        a == b,
{
    let x = a.value() as int;
    let c = limb_base() as int;
    let qa = (a.0[1] + a.0[2] * c + a.0[3] * c * c) as int;
    let qb = (b.0[1] + b.0[2] * c + b.0[3] * c * c) as int;
    assert(x == qa * c + a.0[0]);
    assert(x == qb * c + b.0[0]);
    lemma_fundamental_div_mod_converse(x, c, qa, a.0[0] as int);
    lemma_fundamental_div_mod_converse(x, c, qb, b.0[0] as int);
    let ya = (a.0[2] + a.0[3] * c) as int;
    let yb = (b.0[2] + b.0[3] * c) as int;
    assert(qa == ya * c + a.0[1]);
    assert(qb == yb * c + b.0[1]);
    lemma_fundamental_div_mod_converse(qa, c, ya, a.0[1] as int);
    lemma_fundamental_div_mod_converse(qb, c, yb, b.0[1] as int);
    lemma_fundamental_div_mod_converse(ya, c, a.0[3] as int, a.0[2] as int);
    lemma_fundamental_div_mod_converse(yb, c, b.0[3] as int, b.0[2] as int);
    assert(a.0 =~= b.0);
}

/// Reading back what `to_lower_hex` wrote gives the same value.
pub proof fn lemma_lower_hex_roundtrip(u: U256)
    ensures
        from_hex_spec(lower_hex_spec(u)) == u.value(),
{
    let t3 = fixed_hex_text(u.0[3] as nat, 16);
    let t2 = fixed_hex_text(u.0[2] as nat, 16);
    let t1 = fixed_hex_text(u.0[1] as nat, 16);
    let t0 = fixed_hex_text(u.0[0] as nat, 16);
    lemma_fixed_hex_text(u.0[3] as nat, 16);
    lemma_fixed_hex_text(u.0[2] as nat, 16);
    lemma_fixed_hex_text(u.0[1] as nat, 16);
    lemma_fixed_hex_text(u.0[0] as nat, 16);
    lemma_pow16_constants();
    let p = pow16(16);
    let s = lower_hex_spec(u);
    assert(s[1] == t3[1]);
    assert(hex_digit_value(t3[1]) is Some);
    assert(strip_lower_0x(s) == s);
    lemma_hex_digits_concat(t3, t2);
    lemma_hex_digits_concat(t3 + t2, t1);
    lemma_hex_digits_concat(t3 + t2 + t1, t0);
    let d3 = hex_digits(t3);
    let d2 = hex_digits(t2);
    let d1 = hex_digits(t1);
    let d0 = hex_digits(t0);
    lemma_hex_value_concat(d3, d2);
    lemma_hex_value_concat(d3 + d2, d1);
    lemma_hex_value_concat(d3 + d2 + d1, d0);
    lemma_small_mod(u.0[3] as nat, p);
    lemma_small_mod(u.0[2] as nat, p);
    lemma_small_mod(u.0[1] as nat, p);
    lemma_small_mod(u.0[0] as nat, p);
    assert(hex_value(hex_digits(s)) == ((u.0[3] * p + u.0[2]) * p + u.0[1]) * p + u.0[0]);
    assert(hex_value(hex_digits(s)) == u.value());
    lemma_small_mod(u.value(), u256_modulus());
}

/// Reading back what `to_lower_hex` wrote gives the same limbs.
pub proof fn lemma_lower_hex_roundtrip_limbs(u: U256, v: U256)
    requires
        v.value() == from_hex_spec(lower_hex_spec(u)),
    ensures
        v == u,
{
    lemma_lower_hex_roundtrip(u);
    lemma_value_injective(u, v);
}

} // verus!
