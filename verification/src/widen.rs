//! Widening of 64-bit integers into IEEE-754 binary64 bit patterns.
//!
//! The host environment's native numeric type is a double, so integer
//! scalars are widened to double precision when they cross the boundary.
//! The widening is computed here over plain integers (the crate holds a
//! double only as its bit pattern) with round-to-nearest, ties-to-even,
//! and it is proved exact for magnitudes up to `2^53`.

use vstd::arithmetic::div_mod::lemma_div_is_ordered;
use vstd::arithmetic::div_mod::lemma_div_multiples_vanish;
use vstd::arithmetic::div_mod::lemma_fundamental_div_mod;
use vstd::arithmetic::div_mod::lemma_fundamental_div_mod_converse;
use vstd::arithmetic::div_mod::lemma_mod_multiples_basic;
use vstd::arithmetic::div_mod::lemma_multiply_divide_lt;
use vstd::arithmetic::mul::lemma_mul_inequality;
use vstd::arithmetic::mul::lemma_mul_is_associative;
use vstd::arithmetic::mul::lemma_mul_is_commutative;
use vstd::arithmetic::mul::lemma_mul_is_distributive_add_other_way;
use vstd::arithmetic::mul::lemma_mul_strict_inequality;
use vstd::arithmetic::power2::lemma2_to64;
use vstd::arithmetic::power2::lemma2_to64_rest;
use vstd::arithmetic::power2::lemma_pow2_adds;
use vstd::arithmetic::power2::lemma_pow2_pos;
use vstd::arithmetic::power2::lemma_pow2_strictly_increases;
use vstd::arithmetic::power2::lemma_pow2_unfold;
use vstd::arithmetic::power2::pow2;
use vstd::prelude::*;

verus! {

/// Position of the most significant set bit of `n` (0 for `n <= 1`).
pub open spec fn msb(n: nat) -> nat
    decreases n,
{
    if n < 2 {
        0
    } else {
        1 + msb(n / 2)
    }
}

/// `pow2` is monotone.
pub proof fn lemma_pow2_le(e1: nat, e2: nat)
    requires
        e1 <= e2,
    ensures
        pow2(e1) <= pow2(e2),
{
    if e1 < e2 {
        lemma_pow2_strictly_increases(e1, e2);
    }
}

/// The most significant bit determines the binade: `2^msb(n) <= n < 2^(msb(n)+1)`.
pub proof fn lemma_msb_bounds(n: nat)
    requires
        n >= 1,
    ensures
        pow2(msb(n)) <= n < pow2(msb(n) + 1),
    decreases n,
{
    lemma2_to64();
    if n < 2 {
    } else {
        lemma_msb_bounds(n / 2);
        let m = msb(n / 2);
        lemma_fundamental_div_mod(n as int, 2);
        lemma_pow2_unfold(m + 1);
        lemma_pow2_unfold(m + 2);
    }
}

/// `msb` is the unique binade position.
pub proof fn lemma_msb_of_range(n: nat, k: nat)
    requires
        pow2(k) <= n < pow2(k + 1),
    ensures
        msb(n) == k,
{
    lemma_pow2_pos(k);
    lemma_msb_bounds(n);
    let m = msb(n);
    if m < k {
        lemma_pow2_le(m + 1, k);
        assert(false);
    }
    if m > k {
        lemma_pow2_le(k + 1, m);
        assert(false);
    }
}

/// The IEEE-754 binary64 bit pattern nearest to the integer of magnitude
/// `mag` and sign `neg` (round to nearest, ties to even).  Magnitudes below
/// `2^64` stay far below the overflow threshold of the format, so the
/// result is always finite.
pub open spec fn widened_bits(mag: nat, neg: bool) -> nat {
    if mag == 0 {
        0
    } else {
        let sign: nat = if neg {
            pow2(63)
        } else {
            0
        };
        let n = msb(mag);
        if n <= 52 {
            // exactly representable: the significand is mag * 2^(52-n) in [2^52, 2^53)
            sign + (1023 + n) * pow2(52) + ((mag * pow2((52 - n) as nat) - pow2(52)) as nat)
        } else {
            // round the significand to 53 bits, half to even
            let shift = (n - 52) as nat;
            let q = mag / pow2(shift);
            let r = mag % pow2(shift);
            let half = pow2((shift - 1) as nat);
            let rounded: nat = if r > half || (r == half && q % 2 == 1) {
                q + 1
            } else {
                q
            };
            if rounded == pow2(53) {
                sign + (1024 + n) * pow2(52)
            } else {
                sign + (1023 + n) * pow2(52) + ((rounded - pow2(52)) as nat)
            }
        }
    }
}

/// The bit pattern of the double that `v` widens to.
pub open spec fn spec_widen_i64(v: i64) -> u64 {
    if v >= 0 {
        widened_bits(v as nat, false) as u64
    } else {
        widened_bits((-(v as int)) as nat, true) as u64
    }
}

/// The bit pattern of the double that `v` widens to.
pub open spec fn spec_widen_u64(v: u64) -> u64 {
    widened_bits(v as nat, false) as u64
}

/// The integer that a binary64 bit pattern denotes exactly, if its value
/// is an integer: infinities, NaNs, and finite non-integers denote nothing,
/// and both zeros denote 0.
pub open spec fn exact_int_of(bits: u64) -> Option<int> {
    let s = bits as nat / pow2(63);
    let e = (bits as nat / pow2(52)) % pow2(11);
    let m = bits as nat % pow2(52);
    if e == 0 {
        if m == 0 {
            Some(0int)
        } else {
            // subnormal: magnitude strictly between 0 and 1
            None
        }
    } else if e == 2047 {
        // infinity or NaN
        None
    } else if e < 1023 {
        // normal with magnitude strictly between 0 and 1
        None
    } else if e >= 1075 {
        let mag = (pow2(52) + m) * pow2((e - 1075) as nat);
        Some(
            if s == 1 {
                -(mag as int)
            } else {
                mag as int
            },
        )
    } else {
        let d = pow2((1075 - e) as nat);
        if (pow2(52) + m) % d == 0 {
            let mag = (pow2(52) + m) / d;
            Some(
                if s == 1 {
                    -(mag as int)
                } else {
                    mag as int
                },
            )
        } else {
            None
        }
    }
}

/// A bit pattern composed of sign, exponent and fraction fields decomposes
/// back into them.
proof fn lemma_split_fields(s: nat, e: nat, m: nat)
    requires
        s < 2,
        e < 2048,
        m < pow2(52),
    ensures
        s * pow2(63) + e * pow2(52) + m < pow2(64),
        (s * pow2(63) + e * pow2(52) + m) % pow2(52) == m,
        ((s * pow2(63) + e * pow2(52) + m) / pow2(52)) % pow2(11) == e,
        (s * pow2(63) + e * pow2(52) + m) / pow2(63) == s,
{
    lemma2_to64();
    lemma2_to64_rest();
    lemma_pow2_adds(11, 52);
    lemma_pow2_adds(12, 52);
    lemma_pow2_pos(52);
    lemma_pow2_pos(11);
    lemma_pow2_pos(63);
    let b = s * pow2(63) + e * pow2(52) + m;
    let hi = s * pow2(11) + e;
    assert(s * pow2(63) == (s * pow2(11)) * pow2(52)) by {
        lemma_mul_is_associative(s as int, pow2(11) as int, pow2(52) as int);
    }
    assert(hi * pow2(52) == (s * pow2(11)) * pow2(52) + e * pow2(52)) by {
        lemma_mul_is_distributive_add_other_way(
            pow2(52) as int,
            (s * pow2(11)) as int,
            e as int,
        );
    }
    assert(b == hi * pow2(52) + m);
    assert(hi < pow2(12)) by {
        assert(s * pow2(11) <= pow2(11)) by {
            lemma_mul_inequality(s as int, 1, pow2(11) as int);
        }
    }
    assert(b < pow2(64)) by {
        lemma_mul_strict_inequality(hi as int, pow2(12) as int, pow2(52) as int);
    }
    lemma_fundamental_div_mod_converse(b as int, pow2(52) as int, hi as int, m as int);
    lemma_fundamental_div_mod_converse(hi as int, pow2(11) as int, s as int, e as int);
    assert(e * pow2(52) + m < pow2(63)) by {
        assert(e * pow2(52) <= 2047 * pow2(52)) by {
            lemma_mul_inequality(e as int, 2047, pow2(52) as int);
        }
        assert(2047 * pow2(52) + pow2(52) == 2048 * pow2(52));
        assert(2048 * pow2(52) == pow2(63)) by {
            lemma2_to64();
        }
    }
    lemma_fundamental_div_mod_converse(
        b as int,
        pow2(63) as int,
        s as int,
        (e * pow2(52) + m) as int,
    );
}

/// Law: widening an integer of magnitude at most `2^53` to a double is
/// exact — the resulting bit pattern denotes exactly that integer.
pub proof fn lemma_widened_exact(mag: nat, neg: bool)
    requires
        mag <= pow2(53),
    ensures
        exact_int_of(widened_bits(mag, neg) as u64) == Some(
            if neg {
                -(mag as int)
            } else {
                mag as int
            },
        ),
{
    lemma2_to64();
    lemma2_to64_rest();
    lemma_pow2_pos(52);
    lemma_pow2_pos(63);
    lemma_pow2_pos(11);
    if mag == 0 {
        assert(widened_bits(mag, neg) == 0);
        assert(0nat / pow2(63) == 0) by {
            lemma_fundamental_div_mod_converse(0, pow2(63) as int, 0, 0);
        }
        assert(0nat / pow2(52) == 0) by {
            lemma_fundamental_div_mod_converse(0, pow2(52) as int, 0, 0);
        }
        assert(0nat % pow2(52) == 0) by {
            lemma_fundamental_div_mod_converse(0, pow2(52) as int, 0, 0);
        }
        assert(0nat % pow2(11) == 0) by {
            lemma_fundamental_div_mod_converse(0, pow2(11) as int, 0, 0);
        }
    } else {
        let s: nat = if neg {
            1
        } else {
            0
        };
        let n = msb(mag);
        lemma_msb_bounds(mag);
        if mag == pow2(53) {
            lemma_pow2_strictly_increases(53, 54);
            lemma_msb_of_range(mag, 53);
            let shift: nat = (n - 52) as nat;
            assert(shift == 1);
            assert(pow2(1) == 2);
            lemma_pow2_unfold(53);
            assert(mag / pow2(shift) == pow2(52)) by {
                lemma_div_multiples_vanish(pow2(52) as int, 2);
            }
            assert(mag % pow2(shift) == 0) by {
                lemma_mod_multiples_basic(pow2(52) as int, 2);
            }
            let q = mag / pow2(shift);
            assert(q % 2 == 0) by {
                lemma_mod_multiples_basic(pow2(51) as int, 2);
                lemma_pow2_unfold(52);
            }
            lemma_pow2_strictly_increases(52, 53);
            assert(widened_bits(mag, neg) == s * pow2(63) + 1076 * pow2(52)) by {
                lemma_mul_inequality(s as int, 1, pow2(63) as int);
            }
            lemma_split_fields(s, 1076, 0);
            let bits = s * pow2(63) + 1076 * pow2(52);
            assert(bits as u64 as nat == bits);
            assert((pow2(52) + 0) * pow2((1076 - 1075) as nat) == pow2(53)) by {
                lemma_pow2_adds(52, 1);
            }
        } else {
            // 1 <= mag < 2^53, so the significand is exact
            assert(n <= 52) by {
                if n >= 53 {
                    lemma_pow2_le(53, n);
                }
            }
            let w = (52 - n) as nat;
            let scale = pow2(w);
            lemma_pow2_pos(w);
            let sig = mag * scale;
            assert(pow2(52) <= sig) by {
                lemma_pow2_adds(n, w);
                lemma_mul_inequality(pow2(n) as int, mag as int, scale as int);
            }
            assert(sig < pow2(53)) by {
                lemma_pow2_adds(n + 1, w);
                lemma_mul_strict_inequality(mag as int, pow2(n + 1) as int, scale as int);
            }
            let e = 1023 + n;
            let m = (sig - pow2(52)) as nat;
            lemma_split_fields(s, e, m);
            let bits = s * pow2(63) + e * pow2(52) + m;
            assert(widened_bits(mag, neg) == bits);
            assert(bits as u64 as nat == bits);
            assert(pow2(52) + m == sig);
            if e == 1075 {
                assert(scale == 1);
                assert(sig == mag) by (nonlinear_arith)
                    requires
                        sig == mag * scale,
                        scale == 1,
                ;
                assert((pow2(52) + m) * pow2((e - 1075) as nat) == mag);
            } else {
                let d = pow2((1075 - e) as nat);
                assert((1075 - e) as nat == w);
                assert(sig == d * mag) by {
                    lemma_mul_is_commutative(mag as int, d as int);
                }
                assert((pow2(52) + m) % d == 0) by {
                    lemma_mul_is_commutative(mag as int, d as int);
                    lemma_mod_multiples_basic(mag as int, d as int);
                }
                assert((pow2(52) + m) / d == mag) by {
                    lemma_div_multiples_vanish(mag as int, d as int);
                }
            }
        }
    }
}

/// Law: within `±2^53` the widening of a signed 64-bit integer round-trips.
pub proof fn lemma_widen_i64_exact(v: i64)
    requires
        -0x20_0000_0000_0000 <= v <= 0x20_0000_0000_0000,
    ensures
        exact_int_of(spec_widen_i64(v)) == Some(v as int),
{
    lemma2_to64_rest();
    if v >= 0 {
        lemma_widened_exact(v as nat, false);
    } else {
        lemma_widened_exact((-(v as int)) as nat, true);
    }
}

/// Law: within `2^53` the widening of an unsigned 64-bit integer round-trips.
pub proof fn lemma_widen_u64_exact(v: u64)
    requires
        v <= 0x20_0000_0000_0000,
    ensures
        exact_int_of(spec_widen_u64(v)) == Some(v as int),
{
    lemma2_to64_rest();
    lemma_widened_exact(v as nat, false);
}

/// `2^k` as a machine word.
fn pow2_u64(k: u64) -> (r: u64)
    requires
        k <= 63,
    ensures
        r as nat == pow2(k as nat),
    decreases k,
{
    proof {
        lemma2_to64();
        lemma2_to64_rest();
    }
    if k == 0 {
        1
    } else {
        let half = pow2_u64(k - 1);
        proof {
            lemma_pow2_le((k - 1) as nat, 62);
            lemma_pow2_unfold(k as nat);
        }
        2 * half
    }
}

/// Position of the most significant set bit.
fn msb_u64(v: u64) -> (r: u64)
    requires
        v >= 1,
    ensures
        r as nat == msb(v as nat),
        r <= 63,
    decreases v,
{
    if v < 2 {
        0
    } else {
        let inner = msb_u64(v / 2);
        proof {
            lemma2_to64_rest();
            lemma_msb_bounds(v as nat);
            if msb(v as nat) > 63 {
                lemma_pow2_le(64, msb(v as nat));
                assert(false);
            }
        }
        inner + 1
    }
}

/// The binary64 bit pattern nearest to the integer of magnitude `mag` and
/// sign `neg` (round to nearest, ties to even).
fn widen_mag(mag: u64, neg: bool) -> (r: u64)
    ensures
        r as nat == widened_bits(mag as nat, neg),
{
    if mag == 0 {
        return 0;
    }
    proof {
        lemma2_to64();
        lemma2_to64_rest();
        lemma_msb_bounds(mag as nat);
        lemma_pow2_pos(52);
    }
    let sign: u64 = if neg {
        0x8000_0000_0000_0000
    } else {
        0
    };
    let n = msb_u64(mag);
    let p52 = pow2_u64(52);
    if n <= 52 {
        let scale = pow2_u64(52 - n);
        proof {
            let nn = n as nat;
            let w = (52 - nn) as nat;
            assert((mag as nat) * (scale as nat) >= pow2(52)) by {
                lemma_pow2_adds(nn, w);
                lemma_mul_inequality(pow2(nn) as int, mag as int, pow2(w) as int);
            }
            assert(((mag as nat) * (scale as nat)) < pow2(53)) by {
                lemma_pow2_adds(nn + 1, w);
                lemma_mul_strict_inequality(mag as int, pow2(nn + 1) as int, pow2(w) as int);
            }
        }
        let sig = mag * scale;
        let mant = sig - p52;
        let exp = 1023 + n;
        proof {
            lemma_compose_bound(exp as nat, mant as nat);
        }
        sign + exp * p52 + mant
    } else {
        let shift = n - 52;
        let p = pow2_u64(shift);
        proof {
            let nn = n as nat;
            let sh = (nn - 52) as nat;
            lemma_pow2_pos(sh);
            assert(mag as nat / pow2(sh) < pow2(53)) by {
                lemma_pow2_adds(sh, 53);
                lemma_mul_is_commutative(pow2(sh) as int, pow2(53) as int);
                lemma_multiply_divide_lt(mag as int, pow2(sh) as int, pow2(53) as int);
            }
            assert(mag as nat / pow2(sh) >= pow2(52)) by {
                lemma_pow2_adds(sh, 52);
                lemma_div_is_ordered(pow2(nn) as int, mag as int, pow2(sh) as int);
                lemma_div_multiples_vanish(pow2(52) as int, pow2(sh) as int);
            }
            assert(pow2(sh) / 2 == pow2((sh - 1) as nat)) by {
                lemma_pow2_unfold(sh);
                lemma_div_multiples_vanish(pow2((sh - 1) as nat) as int, 2);
            }
        }
        let q = mag / p;
        let rem = mag % p;
        let half = p / 2;
        let rounded: u64 = if rem > half || (rem == half && q % 2 == 1) {
            q + 1
        } else {
            q
        };
        let p53 = pow2_u64(53);
        if rounded == p53 {
            let exp = 1024 + n;
            proof {
                lemma_compose_bound(exp as nat, 0);
            }
            sign + exp * p52
        } else {
            let mant = rounded - p52;
            let exp = 1023 + n;
            proof {
                lemma_compose_bound(exp as nat, mant as nat);
            }
            sign + exp * p52 + mant
        }
    }
}

/// The composed bit pattern fits in a word, with or without its sign bit.
proof fn lemma_compose_bound(e: nat, m: nat)
    requires
        e < 2048,
        m < pow2(52),
    ensures
        e * pow2(52) + m < pow2(63),
        pow2(63) + e * pow2(52) + m < pow2(64),
{
    lemma2_to64();
    lemma2_to64_rest();
    assert(e * pow2(52) <= 2047 * pow2(52)) by {
        lemma_mul_inequality(e as int, 2047, pow2(52) as int);
    }
    assert(2047 * pow2(52) + pow2(52) == 2048 * pow2(52));
    assert(2048 * pow2(52) == pow2(63)) by {
        lemma_pow2_adds(11, 52);
    }
}

/// Widens a signed 64-bit integer to the bit pattern of the nearest double.
pub fn widen_i64(v: i64) -> (r: u64)
    ensures
        r == spec_widen_i64(v),
{
    proof {
        lemma2_to64_rest();
    }
    if v >= 0 {
        widen_mag(v as u64, false)
    } else if v == i64::MIN {
        widen_mag(0x8000_0000_0000_0000u64, true)
    } else {
        widen_mag((-v) as u64, true)
    }
}

/// Widens an unsigned 64-bit integer to the bit pattern of the nearest double.
pub fn widen_u64(v: u64) -> (r: u64)
    ensures
        r == spec_widen_u64(v),
{
    proof {
        lemma2_to64_rest();
    }
    widen_mag(v, false)
}

} // verus!
