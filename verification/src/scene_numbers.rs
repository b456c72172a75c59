//! The numbers of a scene as the scene reader uses them: a sprite's position rounded to a
//! floor cell, a rotation rounded to a quarter turn, and a whole-number setting. Each is
//! computed exactly from the number's value; a position is compared against the cell
//! boundaries as binary64 arithmetic places them.
use vstd::prelude::*;
use vstd::arithmetic::power2::{pow2, lemma_pow2_adds, lemma_pow2_pos, lemma_pow2_strictly_increases, lemma_pow2_unfold};
use vstd::arithmetic::div_mod::lemma_fundamental_div_mod_converse;
use crate::json::{exact_value, float_finite, float_parts, Json};

verus! {

proof fn lemma_powers()
    ensures
        pow2(53) == 0x20_0000_0000_0000,
        pow2(55) == 0x80_0000_0000_0000,
        pow2(56) == 0x100_0000_0000_0000,
        pow2(70) == 0x40_0000_0000_0000_0000,
        pow2(128) == 0x1_0000_0000_0000_0000_0000_0000_0000_0000,
{
    vstd::arithmetic::power2::lemma2_to64();
    lemma_pow2_adds(32, 21);
    lemma_pow2_adds(32, 23);
    lemma_pow2_adds(32, 24);
    lemma_pow2_adds(64, 6);
    lemma_pow2_adds(64, 64);
}

/// 2 to the power `k`.
fn power_of_two(k: u32) -> (p: u128)
    requires
        k <= 126,
    ensures
        p == pow2(k as nat),
{
    let mut p: u128 = 1;
    let mut i: u32 = 0;
    proof {
        lemma_pow2_pos(0);
        assert(pow2(0) == 1) by {
            vstd::arithmetic::power2::lemma2_to64();
        }
    }
    while i < k
        invariant
            i <= k <= 126,
            p == pow2(i as nat),
        decreases k - i,
    {
        proof {
            lemma_pow2_unfold((i + 1) as nat);
            lemma_pow2_strictly_increases((i + 1) as nat, 128);
            lemma_powers();
        }
        p = p * 2;
        i += 1;
    }
    p
}

/// `x` with its magnitude capped at 2^70.
pub open spec fn capped(x: int) -> int {
    if x > pow2(70) {
        pow2(70) as int
    } else if x < -pow2(70) {
        -pow2(70)
    } else {
        x
    }
}

/// The value `v` (`v.0 / 2^v.1`) times 2^55: its floor, capped, and whether it is whole.
pub open spec fn scaled(v: (int, nat)) -> (int, bool) {
    let x = v.0 * pow2(55);
    (capped(x / (pow2(v.1) as int)), x % (pow2(v.1) as int) == 0)
}

/// `v >= a / 2^55`.
pub open spec fn at_least(v: (int, nat), a: int) -> bool {
    v.0 * pow2(55) >= a * pow2(v.1)
}

/// `v > a / 2^55`.
pub open spec fn above(v: (int, nat), a: int) -> bool {
    v.0 * pow2(55) > a * pow2(v.1)
}

proof fn lemma_scaled_compare(v: (int, nat), a: int)
    requires
        -pow2(70) < a < pow2(70),
    ensures
        at_least(v, a) <==> scaled(v).0 >= a,
        above(v, a) <==> (scaled(v).0 > a || (scaled(v).0 == a && !scaled(v).1)),
{
    let x = v.0 * pow2(55);
    let d = pow2(v.1) as int;
    lemma_pow2_pos(v.1);
    let q = x / d;
    let r = x % d;
    assert(x == q * d + r && 0 <= r < d) by {
        vstd::arithmetic::div_mod::lemma_fundamental_div_mod(x, d);
    }
    assert(x >= a * d <==> q >= a) by (nonlinear_arith)
        requires
            x == q * d + r,
            0 <= r < d,
    {
        if q >= a {
            assert(q * d >= a * d);
        } else {
            assert(q <= a - 1);
            assert(q * d <= (a - 1) * d);
        }
    }
    assert(x > a * d <==> (q > a || (q == a && r != 0))) by (nonlinear_arith)
        requires
            x == q * d + r,
            0 <= r < d,
    {
        if q > a {
            assert(q >= a + 1);
            assert(q * d >= (a + 1) * d);
        } else if q < a {
            assert(q <= a - 1);
            assert(q * d <= (a - 1) * d);
        }
    }
}

proof fn lemma_div_exact(x: int, d: int, q: int, r: int)
    requires
        d > 0,
        0 <= r < d,
        x == q * d + r,
    ensures
        x / d == q,
        x % d == r,
{
    lemma_fundamental_div_mod_converse(x, d, q, r);
}

/// The scaled form of `±m * 2^e`, a value whose magnitude is at least 1.
fn scale_whole(negative: bool, m: u64, e: u32) -> (r: (i128, bool))
    requires
        1 <= m < 0x20_0000_0000_0000,
        e <= 1000,
    ensures
        ({
            let mag = (m * pow2(e as nat)) as int;
            let s = scaled((if negative { -mag } else { mag }, 0));
            r.0 == s.0 && r.1 == s.1
        }),
{
    let ghost mag = (m * pow2(e as nat)) as int;
    let ghost v: (int, nat) = (if negative { -mag } else { mag }, 0);
    proof {
        lemma_powers();
        lemma_pow2_pos(e as nat);
        lemma_pow2_pos(0);
        vstd::arithmetic::power2::lemma2_to64();
        lemma_pow2_adds(e as nat, 55);
        lemma_div_exact(v.0 * pow2(55), 1, v.0 * pow2(55), 0);
        assert(mag * pow2(55) == (m as int) * pow2((e + 55) as nat)) by (nonlinear_arith)
            requires
                mag == m * pow2(e as nat),
                pow2((e + 55) as nat) == pow2(e as nat) * pow2(55),
        ;
        if negative {
            assert(v.0 * pow2(55) == -((m as int) * pow2((e + 55) as nat))) by (nonlinear_arith)
                requires
                    v.0 == -mag,
                    mag * pow2(55) == (m as int) * pow2((e + 55) as nat),
            ;
        } else {
            assert(v.0 * pow2(55) == (m as int) * pow2((e + 55) as nat));
        }
    }
    let cap: i128 = 0x40_0000_0000_0000_0000;
    if e >= 16 {
        proof {
            lemma_pow2_strictly_increases(70, (e + 55) as nat);
            assert((m as int) * pow2((e + 55) as nat) >= pow2((e + 55) as nat)) by (nonlinear_arith)
                requires
                    m >= 1,
                    pow2((e + 55) as nat) > 0,
            ;
            assert(pow2(0) == 1);
            assert(v.0 * pow2(55) / (pow2(v.1) as int) == v.0 * pow2(55));
            if negative {
                assert(v.0 * pow2(55) <= -pow2(70));
            } else {
                assert(v.0 * pow2(55) >= pow2(70));
            }
        }
        return (if negative { -cap } else { cap }, true);
    }
    let pe = power_of_two(e + 55);
    proof {
        lemma_pow2_strictly_increases((e + 55) as nat, 71);
        lemma_pow2_adds(64, 7);
        assert((m as int) * pe < 0x20_0000_0000_0000 * 0x80_0000_0000_0000_0000) by (nonlinear_arith)
            requires
                m < 0x20_0000_0000_0000,
                pe < 0x80_0000_0000_0000_0000,
                pe > 0,
        ;
    }
    let mag_x = (m as u128) * pe;
    assert(mag_x == (m as int) * pow2((e + 55) as nat));
    let x: i128 = if negative { -(mag_x as i128) } else { mag_x as i128 };
    assert(v.0 * pow2(55) == x);
    assert(pow2(0) == 1);
    assert(v.0 * pow2(55) / (pow2(v.1) as int) == v.0 * pow2(55));
    let capped_x = if x > cap { cap } else if x < -cap { -cap } else { x };
    (capped_x, true)
}

/// The scaled form of `±m / 2^k`, a value whose magnitude is below 1.
fn scale_fraction(negative: bool, m: u64, k: u32) -> (r: (i128, bool))
    requires
        1 <= m < 0x20_0000_0000_0000,
        1 <= k <= 1074,
    ensures
        ({
            let s = scaled((if negative { -(m as int) } else { m as int }, k as nat));
            r.0 == s.0 && r.1 == s.1
        }),
{
    let ghost v: (int, nat) = (if negative { -(m as int) } else { m as int }, k as nat);
    proof {
        lemma_powers();
        lemma_pow2_pos(k as nat);
    }
    let cap: i128 = 0x40_0000_0000_0000_0000;
    if k <= 55 {
        let pk = power_of_two(55 - k);
        proof {
            lemma_pow2_pos((55 - k) as nat);
            lemma_pow2_adds((55 - k) as nat, k as nat);
            lemma_pow2_strictly_increases((55 - k) as nat, 56);
            assert((m as int) * pk < 0x20_0000_0000_0000 * 0x100_0000_0000_0000) by (nonlinear_arith)
                requires
                    m < 0x20_0000_0000_0000,
                    pk < 0x100_0000_0000_0000,
                    pk > 0,
            ;
        }
        let mag = (m as u128) * pk;
        let x: i128 = if negative { -(mag as i128) } else { mag as i128 };
        let capped_x = if x > cap { cap } else if x < -cap { -cap } else { x };
        proof {
            assert(v.0 * pow2(55) == x * pow2(k as nat)) by (nonlinear_arith)
                requires
                    v.0 == (if negative { -(m as int) } else { m as int }),
                    pow2(55) == pow2((55 - k) as nat) * pow2(k as nat),
                    mag == m * pk,
                    pk == pow2((55 - k) as nat),
                    x == (if negative { -mag } else { mag as int }),
            ;
            lemma_div_exact(v.0 * pow2(55), pow2(k as nat) as int, x as int, 0);
        }
        return (capped_x, true);
    }
    let extra: u32 = k - 55;
    let ghost d = pow2(k as nat) as int;
    proof {
        lemma_pow2_adds(extra as nat, 55);
        lemma_pow2_pos(extra as nat);
    }
    if extra >= 64 {
        proof {
            lemma_pow2_strictly_increases(53, extra as nat);
            assert((m as int) * pow2(55) < d) by (nonlinear_arith)
                requires
                    m < pow2(53),
                    pow2(53) < pow2(extra as nat),
                    d == pow2(extra as nat) * pow2(55),
                    pow2(55) > 0,
            ;
            if negative {
                lemma_div_exact(v.0 * pow2(55), d, -1, d - (m as int) * pow2(55));
            } else {
                lemma_div_exact(v.0 * pow2(55), d, 0, (m as int) * pow2(55));
            }
        }
        return (if negative { -1 } else { 0 }, false);
    }
    let pj = power_of_two(extra);
    proof {
        lemma_pow2_pos(extra as nat);
    }
    let qq: u128 = (m as u128) / pj;
    let rr: u128 = (m as u128) % pj;
    assert(qq <= m);
    let q: u64 = qq as u64;
    let r: u64 = rr as u64;
    proof {
        vstd::arithmetic::div_mod::lemma_fundamental_div_mod(m as int, pj as int);
        assert(m == q * pj + r && r < pj) by (nonlinear_arith)
            requires
                m == pj * (m as int / pj as int) + (m as int % pj as int),
                q == m as int / pj as int,
                r == m as int % pj as int,
                0 <= r < pj,
        ;
        assert((m as int) * pow2(55) == q * d + (r as int) * pow2(55)) by (nonlinear_arith)
            requires
                m == q * pj + r,
                d == pj * pow2(55),
        ;
        assert((r as int) * pow2(55) < d) by (nonlinear_arith)
            requires
                r < pj,
                d == pj * pow2(55),
                pow2(55) > 0,
        ;
        if negative {
            assert(v.0 * pow2(55) == -((m as int) * pow2(55)));
            if r == 0 {
                assert(v.0 * pow2(55) == (-(q as int)) * d + 0) by (nonlinear_arith)
                    requires
                        v.0 * pow2(55) == -((m as int) * pow2(55)),
                        (m as int) * pow2(55) == q * d + (r as int) * pow2(55),
                        r == 0,
                ;
                lemma_div_exact(v.0 * pow2(55), d, -(q as int), 0);
            } else {
                assert(v.0 * pow2(55) == (-(q as int) - 1) * d + (d - (r as int) * pow2(55))) by (nonlinear_arith)
                    requires
                        v.0 * pow2(55) == -((m as int) * pow2(55)),
                        (m as int) * pow2(55) == q * d + (r as int) * pow2(55),
                ;
                lemma_div_exact(v.0 * pow2(55), d, -(q as int) - 1, d - (r as int) * pow2(55));
            }
        } else {
            lemma_div_exact(v.0 * pow2(55), d, q as int, (r as int) * pow2(55));
        }
        assert((r as int) * pow2(55) != 0 <==> r != 0) by (nonlinear_arith)
            requires
                pow2(55) > 0,
        ;
    }
    if negative {
        if r == 0 {
            (-(q as i128), true)
        } else {
            (-(q as i128) - 1, false)
        }
    } else {
        (q as i128, r == 0)
    }
}

/// What a number (a non-negative or negative integer, or finite float bits) is scaled to.
pub fn scaled_number(j: &Json) -> (r: Option<(i128, bool)>)
    ensures
        match exact_value(*j) {
            None => r is None,
            Some(v) => r matches Some(s) && s.0 == scaled(v).0 && s.1 == scaled(v).1,
        },
{
    proof {
        vstd::arithmetic::power2::lemma2_to64();
        lemma_pow2_pos(55);
        lemma_pow2_pos(70);
        lemma_powers();
    }
    let cap: i128 = 0x40_0000_0000_0000_0000;
    assert(cap == pow2(70)) by {
        lemma_pow2_adds(64, 6);
    }
    let p55 = power_of_two(55);
    match *j {
        Json::UInt(n) => {
            proof {
                lemma_div_exact((n as int) * pow2(55), 1, (n as int) * pow2(55), 0);
            }
            if n >= 0x8000 {
                assert((n as int) * pow2(55) >= 0x8000 * pow2(55)) by (nonlinear_arith)
                    requires
                        n >= 0x8000,
                        pow2(55) > 0,
                ;
                assert(0x8000 * pow2(55) == pow2(70)) by {
                    lemma_pow2_adds(15, 55);
                }
                Some((cap, true))
            } else {
                let x = (n as i128) * (p55 as i128);
                assert(x <= cap) by (nonlinear_arith)
                    requires
                        n < 0x8000,
                        x == n * pow2(55),
                        cap == 0x8000 * pow2(55),
                {
                }
                Some((x, true))
            }
        },
        Json::Int(i) => {
            proof {
                lemma_div_exact((i as int) * pow2(55), 1, (i as int) * pow2(55), 0);
                lemma_pow2_adds(15, 55);
            }
            if i >= 0x8000 {
                assert((i as int) * pow2(55) >= 0x8000 * pow2(55)) by (nonlinear_arith)
                    requires
                        i >= 0x8000,
                        pow2(55) > 0,
                ;
                Some((cap, true))
            } else if i <= -0x8000 {
                assert((i as int) * pow2(55) <= -0x8000 * pow2(55)) by (nonlinear_arith)
                    requires
                        i <= -0x8000,
                        pow2(55) > 0,
                ;
                Some((-cap, true))
            } else {
                let x = (i as i128) * (p55 as i128);
                assert(-cap <= x <= cap) by (nonlinear_arith)
                    requires
                        -0x8000 < i < 0x8000,
                        x == i * pow2(55),
                        cap == 0x8000 * pow2(55),
                {
                }
                Some((x, true))
            }
        },
        Json::Float(bits) => {
            let biased = (bits >> 52u64) & 0x7FFu64;
            if biased == 0x7FF {
                return None;
            }
            let fraction = bits & 0xF_FFFF_FFFF_FFFFu64;
            let negative = (bits >> 63u64) == 1;
            assert(fraction <= 0xF_FFFF_FFFF_FFFF) by (bit_vector)
                requires
                    fraction == bits & 0xF_FFFF_FFFF_FFFFu64,
            ;
            let m: u64 = if biased == 0 {
                fraction
            } else {
                fraction + 0x10_0000_0000_0000
            };
            assert(m < 0x20_0000_0000_0000);
            assert(biased <= 0x7FF) by (bit_vector)
                requires
                    biased == (bits >> 52u64) & 0x7FFu64,
            ;
            let ghost parts = float_parts(bits);
            assert(parts.1 == m);
            assert(float_finite(bits));
            let ghost v = exact_value(*j)->0;
            if m == 0 {
                proof {
                    lemma_pow2_pos(v.1);
                    lemma_div_exact(0, pow2(v.1) as int, 0, 0);
                    assert(v.0 == 0);
                }
                return Some((0, true));
            }
            if biased >= 1075 {
                let e: u32 = (biased - 1075) as u32;
                assert(parts.2 == e);
                return Some(scale_whole(negative, m, e));
            }
            let k: u32 = if biased == 0 {
                1074
            } else {
                (1075 - biased) as u32
            };
            assert(parts.2 == -(k as int));
            Some(scale_fraction(negative, m, k))
        },
        _ => None,
    }
}

/// The nearest whole number to `v / 90`, halves away from zero, kept within `i32`, taken
/// modulo 4: how many quarter turns a rotation of `v` degrees is.
pub open spec fn quarter_turns(v: (int, nat)) -> int {
    let d: int = 90 * (pow2(v.1) as int);
    let r = if v.0 >= 0 {
        (2 * v.0 + d) / (2 * d)
    } else {
        -((-2 * v.0 + d) / (2 * d))
    };
    let clamped = if r > 0x7FFF_FFFF {
        0x7FFF_FFFF
    } else if r < -0x8000_0000 {
        -0x8000_0000
    } else {
        r
    };
    clamped % 4
}

proof fn lemma_quarter_whole(m: int, d: int, negative: bool, r: int)
    requires
        d > 0,
        m >= 0,
        r == (2 * m + d) / (2 * d),
    ensures
        r >= 0,
{
    assert((2 * m + d) / (2 * d) >= 0) by (nonlinear_arith)
        requires
            d > 0,
            m >= 0,
    ;
}

/// Quarter turns of a rotation of `negative ? -v : v` degrees over `2^k`, given the
/// rounded magnitude `r`.
fn quarter_of_rounded(negative: bool, r: u128) -> (q: u8)
    ensures
        ({
            let rr = if negative { -(r as int) } else { r as int };
            let clamped = if rr > 0x7FFF_FFFF {
                0x7FFF_FFFF
            } else if rr < -0x8000_0000 {
                -0x8000_0000
            } else {
                rr
            };
            q == clamped % 4
        }),
{
    if negative {
        if r >= 0x8000_0000 {
            0
        } else {
            let t = (r % 4) as u8;
            if t == 0 { 0 } else { 4 - t }
        }
    } else {
        if r > 0x7FFF_FFFF {
            3
        } else {
            (r % 4) as u8
        }
    }
}

/// The quarter turns of a rotation: a number's, a missing or non-numeric rotation's (none),
/// or an error for float bits that are not finite.
pub open spec fn rotation_turns(j: Json) -> Option<int> {
    match exact_value(j) {
        Some(v) => Some(quarter_turns(v)),
        None => if j is Float {
            None
        } else {
            Some(0)
        },
    }
}

pub fn turns_of(j: &Json) -> (r: Option<u8>)
    ensures
        match rotation_turns(*j) {
            Some(t) => r == Some(t as u8),
            None => r is None,
        },
{
    proof {
        lemma_powers();
        vstd::arithmetic::power2::lemma2_to64();
    }
    let (negative, m, e_nonneg, e) = match *j {
        Json::UInt(n) => (false, n, true, 0u32),
        Json::Int(i) => {
            if i >= 0 {
                (false, i as u64, true, 0u32)
            } else {
                (true, (-(i as i128)) as u64, true, 0u32)
            }
        },
        Json::Float(bits) => {
            let biased = (bits >> 52u64) & 0x7FFu64;
            if biased == 0x7FF {
                return None;
            }
            let fraction = bits & 0xF_FFFF_FFFF_FFFFu64;
            assert(fraction <= 0xF_FFFF_FFFF_FFFF) by (bit_vector)
                requires
                    fraction == bits & 0xF_FFFF_FFFF_FFFFu64,
            ;
            assert(biased <= 0x7FF) by (bit_vector)
                requires
                    biased == (bits >> 52u64) & 0x7FFu64,
            ;
            let m: u64 = if biased == 0 { fraction } else { fraction + 0x10_0000_0000_0000 };
            if biased >= 1075 {
                ((bits >> 63u64) == 1, m, true, (biased - 1075) as u32)
            } else if biased == 0 {
                ((bits >> 63u64) == 1, m, false, 1074u32)
            } else {
                ((bits >> 63u64) == 1, m, false, (1075 - biased) as u32)
            }
        },
        _ => return Some(0),
    };
    let ghost v = exact_value(*j)->0;
    let ghost mag: int = if e_nonneg { m * pow2(e as nat) } else { m as int };
    assert(v == (if negative { -mag } else { mag }, if e_nonneg { 0nat } else { e as nat })) by {
        lemma_pow2_pos(0);
        if !(*j is Float) {
            assert(m * pow2(0) == m);
        }
    }
    proof {
        lemma_pow2_pos(e as nat);
    }
    if m == 0 {
        assert(mag == 0) by (nonlinear_arith)
            requires
                m == 0,
                mag == (if e_nonneg { m * pow2(e as nat) } else { m as int }),
        ;
        proof {
            let d: int = 90 * (pow2(v.1) as int);
            lemma_pow2_pos(v.1);
            lemma_div_exact(d, 2 * d, 0, d);
        }
        return Some(0);
    }
    let r: u128 = if e_nonneg {
        if e > 40 {
            proof {
                lemma_pow2_strictly_increases(40, e as nat);
                assert(pow2(40) == 0x100_0000_0000) by {
                    lemma_pow2_adds(32, 8);
                }
                assert(mag >= pow2(e as nat)) by (nonlinear_arith)
                    requires
                        m >= 1,
                        mag == m * pow2(e as nat),
                        pow2(e as nat) > 0,
                ;
                let d: int = 90 * (pow2(0) as int);
                assert((2 * mag + d) / (2 * d) >= 0x8000_0000) by (nonlinear_arith)
                    requires
                        mag >= 0x100_0000_0000,
                        d == 90,
                ;
            }
            0x8000_0000
        } else {
            let pe = power_of_two(e);
            proof {
                lemma_pow2_strictly_increases(e as nat, 41);
                lemma_pow2_adds(32, 9);
                assert((m as int) * pe < 0x1_0000_0000_0000_0000 * 0x200_0000_0000) by (nonlinear_arith)
                    requires
                        m < 0x1_0000_0000_0000_0000,
                        pe < 0x200_0000_0000,
                        pe > 0,
                ;
            }
            let value = (m as u128) * pe;
            (2 * value + 90) / 180
        }
    } else {
        if e > 80 {
            proof {
                lemma_pow2_strictly_increases(53, e as nat);
                let d: int = 90 * (pow2(e as nat) as int);
                lemma_div_exact(2 * (m as int) + d, 2 * d, 0, 2 * (m as int) + d);
            }
            0
        } else {
            let pk = power_of_two(e);
            proof {
                lemma_pow2_pos(e as nat);
                lemma_pow2_strictly_increases(e as nat, 81);
                lemma_pow2_adds(64, 17);
            }
            let d = 90 * pk;
            (2 * (m as u128) + d) / (2 * d)
        }
    };
    proof {
        let d: int = 90 * (pow2(v.1) as int);
        if negative {
            assert(-2 * v.0 == 2 * mag);
        }
        assert(d == 90 * pow2(if e_nonneg { 0nat } else { e as nat }));
        if e_nonneg && e > 40 {
            assert(pow2(0) == 1);
        }
        if e_nonneg && e <= 40 {
            assert(pow2(0) == 1);
        }
    }
    let t = quarter_of_rounded(negative, r);
    Some(t)
}

/// What a whole-number setting reads as: its value, a value that is not a number, or one
/// that is not a whole number from 0 to the limit.
#[derive(Clone, Copy, Debug, PartialEq, Eq, Structural)]
pub enum Reading {
    Value(u64),
    NotNumber,
    OutOfRange,
}

/// The setting `v`, if it is a whole number from 0 to `max`.
pub open spec fn whole_within(v: (int, nat), max: u64) -> Option<u64> {
    let d = pow2(v.1) as int;
    if v.0 >= 0 && v.0 % d == 0 && v.0 / d <= max {
        Some((v.0 / d) as u64)
    } else {
        None
    }
}

/// How a value reads as a whole-number setting of at most `max`.
pub open spec fn reading(j: Json, max: u64) -> Reading {
    match exact_value(j) {
        Some(v) => match whole_within(v, max) {
            Some(n) => Reading::Value(n),
            None => Reading::OutOfRange,
        },
        None => if j is Float {
            Reading::OutOfRange
        } else {
            Reading::NotNumber
        },
    }
}

pub fn read_whole(j: &Json, max: u64) -> (r: Reading)
    requires
        max < 0x100_0000_0000,
    ensures
        r == reading(*j, max),
{
    proof {
        lemma_powers();
        vstd::arithmetic::power2::lemma2_to64();
        lemma_pow2_pos(0);
        lemma_div_exact(0, 1, 0, 0);
    }
    match *j {
        Json::UInt(n) => {
            proof {
                lemma_div_exact(n as int, 1, n as int, 0);
            }
            if n <= max { Reading::Value(n) } else { Reading::OutOfRange }
        },
        Json::Int(i) => {
            proof {
                lemma_div_exact(i as int, 1, i as int, 0);
            }
            if i >= 0 && (i as u64) <= max { Reading::Value(i as u64) } else { Reading::OutOfRange }
        },
        Json::Float(bits) => {
            let biased = (bits >> 52u64) & 0x7FFu64;
            if biased == 0x7FF {
                return Reading::OutOfRange;
            }
            let fraction = bits & 0xF_FFFF_FFFF_FFFFu64;
            assert(fraction <= 0xF_FFFF_FFFF_FFFF) by (bit_vector)
                requires
                    fraction == bits & 0xF_FFFF_FFFF_FFFFu64,
            ;
            assert(biased <= 0x7FF) by (bit_vector)
                requires
                    biased == (bits >> 52u64) & 0x7FFu64,
            ;
            let m: u64 = if biased == 0 { fraction } else { fraction + 0x10_0000_0000_0000 };
            let negative = (bits >> 63u64) == 1;
            let ghost v = exact_value(*j)->0;
            if m == 0 {
                proof {
                    lemma_pow2_pos(v.1);
                    lemma_div_exact(0, pow2(v.1) as int, 0, 0);
                    assert(float_parts(bits).1 == 0);
                    assert(v.0 == 0);
                }
                return Reading::Value(0);
            }
            if negative {
                proof {
                    let e = float_parts(bits).2;
                    if e >= 0 {
                        lemma_pow2_pos(e as nat);
                        assert((m as int) * pow2(e as nat) > 0) by (nonlinear_arith)
                            requires
                                m >= 1,
                                pow2(e as nat) > 0,
                        ;
                    }
                    assert(v.0 < 0);
                }
                return Reading::OutOfRange;
            }
            if biased >= 1075 {
                let e = (biased - 1075) as u32;
                proof {
                    lemma_pow2_pos(e as nat);
                    let mag = (m * pow2(e as nat)) as int;
                    lemma_div_exact(mag, 1, mag, 0);
                }
                if e > 40 {
                    proof {
                        lemma_pow2_strictly_increases(40, e as nat);
                        assert(pow2(40) == 0x100_0000_0000) by {
                            lemma_pow2_adds(32, 8);
                        }
                        assert((m as int) * pow2(e as nat) >= pow2(e as nat)) by (nonlinear_arith)
                            requires
                                m >= 1,
                                pow2(e as nat) > 0,
                        ;
                    }
                    return Reading::OutOfRange;
                }
                let pe = power_of_two(e);
                proof {
                    lemma_pow2_strictly_increases(e as nat, 41);
                    lemma_pow2_adds(32, 9);
                    assert((m as int) * pe < 0x20_0000_0000_0000 * 0x200_0000_0000) by (nonlinear_arith)
                        requires
                            m < 0x20_0000_0000_0000,
                            pe < 0x200_0000_0000,
                            pe > 0,
                    ;
                }
                let value = (m as u128) * pe;
                if value <= max as u128 {
                    Reading::Value(value as u64)
                } else {
                    Reading::OutOfRange
                }
            } else {
                let k: u32 = if biased == 0 { 1074 } else { (1075 - biased) as u32 };
                proof {
                    lemma_pow2_pos(k as nat);
                }
                if k > 60 {
                    proof {
                        lemma_pow2_strictly_increases(53, k as nat);
                        lemma_div_exact(m as int, pow2(k as nat) as int, 0, m as int);
                    }
                    return Reading::OutOfRange;
                }
                let pk = power_of_two(k);
                if (m as u128) % pk == 0 && (m as u128) / pk <= max as u128 {
                    Reading::Value(((m as u128) / pk) as u64)
                } else {
                    Reading::OutOfRange
                }
            }
        },
        _ => Reading::NotNumber,
    }
}

/// Where binary64 arithmetic puts the rounding boundary below the half-way point
/// `j + 1/2`: a sum within half the float spacing below it rounds onto it, and from there
/// away from zero. The spacing is `2^-slack(j)` times two.
pub open spec fn slack(j: int) -> nat {
    if j == 0 {
        55
    } else if j == 1 {
        53
    } else if j <= 3 {
        52
    } else if j <= 7 {
        51
    } else if j <= 15 {
        50
    } else {
        49
    }
}

/// The least `x` (times 2^55) that lands in column `j` or beyond: `x + 10.5` reaches the
/// boundary below `j + 1/2`.
pub open spec fn column_start(j: int) -> int {
    (j - 10) * pow2(55) - pow2((55 - slack(j)) as nat)
}

/// The greatest `y` (times 2^55) that lands in row `j` or beyond: `7 - y` reaches the
/// boundary below `j + 1/2`.
pub open spec fn row_start(j: int) -> int {
    (13 - 2 * j) * pow2(54) + pow2((55 - slack(j)) as nat)
}

/// How many column boundaries `x` reaches among the first `n`.
pub open spec fn columns_reached(x: (int, nat), n: nat) -> nat
    decreases n,
{
    if n == 0 {
        0
    } else {
        columns_reached(x, (n - 1) as nat) + if at_least(x, column_start(n - 1)) {
            1nat
        } else {
            0nat
        }
    }
}

/// How many row boundaries `y` reaches among the first `n`.
pub open spec fn rows_reached(y: (int, nat), n: nat) -> nat
    decreases n,
{
    if n == 0 {
        0
    } else {
        rows_reached(y, (n - 1) as nat) + if !above(y, row_start(n - 1)) {
            1nat
        } else {
            0nat
        }
    }
}

/// The floor cell a sprite at world position (`x`, `y`) stands on: column `round(x + 10.5)`
/// and row `round(7 - y)`, as binary64 arithmetic computes them, if both lie on the floor.
pub open spec fn floor_cell(x: (int, nat), y: (int, nat)) -> Option<(int, int)> {
    if above(x, -11 * pow2(55) + 1) && !at_least(x, column_start(21)) && above(y, row_start(14))
        && !at_least(y, 15 * pow2(54) - 1) {
        Some((columns_reached(x, 22) as int, rows_reached(y, 15) as int))
    } else {
        None
    }
}

fn slack_bit(j: u32) -> (b: i128)
    requires
        j < 22,
    ensures
        b == pow2((55 - slack(j as int)) as nat),
        1 <= b <= 64,
{
    proof {
        vstd::arithmetic::power2::lemma2_to64();
    }
    if j == 0 {
        1
    } else if j == 1 {
        4
    } else if j <= 3 {
        8
    } else if j <= 7 {
        16
    } else if j <= 15 {
        32
    } else {
        64
    }
}

/// The cell for scaled positions `sx` and `sy` (see `scaled`).
pub(crate) fn cell_from_scaled(sx: (i128, bool), sy: (i128, bool), Ghost(x): Ghost<(int, nat)>, Ghost(y): Ghost<(int, nat)>) -> (cell: Option<(usize, usize)>)
    requires
        sx.0 == scaled(x).0 && sx.1 == scaled(x).1,
        sy.0 == scaled(y).0 && sy.1 == scaled(y).1,
    ensures
        match floor_cell(x, y) {
            Some(c) => cell == Some((c.0 as usize, c.1 as usize)) && 0 <= c.0 < 22 && 0 <= c.1 < 15,
            None => cell is None,
        },
{
    proof {
        lemma_powers();
        lemma_pow2_adds(54, 1);
        vstd::arithmetic::power2::lemma2_to64();
    }
    let unit: i128 = 0x80_0000_0000_0000;
    let half: i128 = 0x40_0000_0000_0000;
    assert(half == pow2(54)) by {
        lemma_pow2_adds(32, 22);
    }
    let low_x = -11 * unit + 1;
    let high_x = 11 * unit - 64;
    let low_y = (13 - 28) * half + 32;
    let high_y = 15 * half - 1;
    proof {
        lemma_scaled_compare(x, low_x as int);
        lemma_scaled_compare(x, high_x as int);
        lemma_scaled_compare(y, low_y as int);
        lemma_scaled_compare(y, high_y as int);
        assert(column_start(21) == high_x);
        assert(row_start(14) == low_y);
    }
    let x_above = sx.0 > low_x || (sx.0 == low_x && !sx.1);
    let y_above = sy.0 > low_y || (sy.0 == low_y && !sy.1);
    if !(x_above && !(sx.0 >= high_x) && y_above && !(sy.0 >= high_y)) {
        return None;
    }
    let mut cx: usize = 0;
    let mut j: u32 = 0;
    while j < 22
        invariant
            j <= 22,
            cx == columns_reached(x, j as nat),
            cx <= j,
            unit == pow2(55),
            unit == 0x80_0000_0000_0000,
            sx.0 == scaled(x).0 && sx.1 == scaled(x).1,
        decreases 22 - j,
    {
        let start = (j as i128 - 10) * unit - slack_bit(j);
        proof {
            lemma_powers();
            lemma_scaled_compare(x, start as int);
        }
        if sx.0 >= start {
            cx += 1;
        }
        j += 1;
    }
    let mut cy: usize = 0;
    let mut j: u32 = 0;
    while j < 15
        invariant
            j <= 15,
            cy == rows_reached(y, j as nat),
            cy <= j,
            half == pow2(54),
            half == 0x40_0000_0000_0000,
            sy.0 == scaled(y).0 && sy.1 == scaled(y).1,
        decreases 15 - j,
    {
        let start = (13 - 2 * (j as i128)) * half + slack_bit(j);
        proof {
            lemma_powers();
            lemma_scaled_compare(y, start as int);
        }
        if !(sy.0 > start || (sy.0 == start && !sy.1)) {
            cy += 1;
        }
        j += 1;
    }
    proof {
        lemma_columns_upto(x, 22);
        lemma_rows_upto(y, 15);
    }
    Some((cx, cy))
}

proof fn lemma_rows_upto(y: (int, nat), n: nat)
    requires
        n <= 15,
        above(y, row_start(14)),
    ensures
        n == 15 ==> rows_reached(y, n) <= 14,
        rows_reached(y, n) <= n,
    decreases n,
{
    if n > 0 {
        lemma_rows_upto(y, (n - 1) as nat);
    }
}

proof fn lemma_columns_upto(x: (int, nat), n: nat)
    requires
        n <= 22,
        !at_least(x, column_start(21)),
    ensures
        n == 22 ==> columns_reached(x, n) <= 21,
        columns_reached(x, n) <= n,
    decreases n,
{
    if n > 0 {
        lemma_columns_upto(x, (n - 1) as nat);
    }
}

} // verus!
