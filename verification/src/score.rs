//! The frecency scorer.
//!
//! A record's *raw* score is only valid as of the database's reference time.
//! The *effective* score at a later time decays: it halves for every half-life
//! that has elapsed.  Between whole half-lives the decay divisor is
//! interpolated linearly, so that the whole computation is exact integer
//! arithmetic: with `q = elapsed / half_life` and `r = elapsed % half_life`,
//!
//! ```text
//! effective(raw) = raw * half_life / (2^q * (half_life + r))
//! ```
//!
//! At `r == 0` this is exactly `raw / 2^q`: after one half-life of inactivity
//! a score is half of what it was, after two a quarter, and so on.
//!
//! Updating a score on a launch event decays it to "now", adds the weight,
//! and re-expresses the sum as if it had been the raw score at the reference
//! time (the inverse interpolation, capped at [`SCORE_CAP`] so that raw
//! scores can never overflow, however long a store lives).  This keeps a
//! single store-wide reference time rather than a per-record timestamp.
//!
//! All scores are in millipoints: a launch of weight 1 adds [`SCALE`]
//! millipoints to the effective score.

use vstd::prelude::*;

use vstd::arithmetic::div_mod::{
    lemma_div_denominator, lemma_small_mod,
    lemma_basic_div, lemma_div_is_ordered, lemma_div_is_ordered_by_denominator,
    lemma_div_multiples_vanish, lemma_div_pos_is_pos,
};
use vstd::arithmetic::mul::lemma_mul_inequality;
use vstd::arithmetic::power2::{
    lemma2_to64, lemma2_to64_rest, lemma_pow2_adds, lemma_pow2_pos, lemma_pow2_strictly_increases,
    pow2,
};

verus! {

/// Millipoints per whole point of launch weight.
pub const SCALE: u64 = 1000;

/// Upper cap on a raw score, in millipoints (2^50).
pub const SCORE_CAP: u64 = 0x4000000000000;

/// Largest accepted half-life, in milliseconds (2^40, about 35 years).
pub const HALF_LIFE_MAX: u64 = 0x10000000000;

/// Default half-life: three days, in milliseconds.
pub const DEFAULT_HALF_LIFE_MS: u64 = 259200000;

/// A half-life the scorer can work with: positive and small enough that all
/// intermediate products fit in 128 bits.
pub open spec fn valid_half_life(half_life: u64) -> bool {
    1 <= half_life <= HALF_LIFE_MAX
}

/// Clamp a mathematical score at the raw-score cap.
pub open spec fn capped(x: int) -> int {
    if x < SCORE_CAP as int {
        x
    } else {
        SCORE_CAP as int
    }
}

/// The effective score at `elapsed` milliseconds past the reference time of
/// a record whose raw score is `raw`.
pub open spec fn effective_spec(raw: u64, elapsed: u64, half_life: u64) -> int
    recommends
        valid_half_life(half_life),
{
    let q = elapsed as int / half_life as int;
    let r = elapsed as int % half_life as int;
    raw as int * half_life as int / (pow2(q as nat) as int * (half_life as int + r))
}

/// The raw score, as of the reference time, whose effective score at
/// `elapsed` milliseconds past it would be `x`: the inverse interpolation of
/// [`effective_spec`], capped at [`SCORE_CAP`].
pub open spec fn grow_spec(x: u64, elapsed: u64, half_life: u64) -> int
    recommends
        valid_half_life(half_life),
{
    let q = elapsed as int / half_life as int;
    let r = elapsed as int % half_life as int;
    capped(x as int * (half_life as int + r) / half_life as int * pow2(q as nat) as int)
}

/// The raw score after a launch event of weight `weight` at `elapsed`
/// milliseconds past the reference time: decay to now, add the weight, and
/// re-express the sum at the reference time.
pub open spec fn update_spec(raw: u64, weight: u32, elapsed: u64, half_life: u64) -> int
    recommends
        valid_half_life(half_life),
{
    grow_spec(
        (effective_spec(raw, elapsed, half_life) + weight as int * SCALE as int) as u64,
        elapsed,
        half_life,
    )
}

/// 2^e for exponents small enough that the result fits in a `u64`.
fn pow2_u64(e: u64) -> (r: u64)
    requires
        e <= 63,
    ensures
        r == pow2(e as nat),
{
    proof {
        lemma2_to64();
    }
    let mut r: u64 = 1;
    let mut i: u64 = 0;
    while i < e
        invariant
            i <= e <= 63,
            r == pow2(i as nat),
        decreases e - i,
    {
        proof {
            lemma2_to64();
            lemma2_to64_rest();
            lemma_pow2_adds(i as nat, 1);
            if i + 1 < 63 {
                lemma_pow2_strictly_increases((i + 1) as nat, 63);
            }
        }
        r = r * 2;
        i = i + 1;
    }
    r
}

/// The effective score never exceeds the raw score it decays.
pub proof fn lemma_effective_le_raw(raw: u64, elapsed: u64, half_life: u64)
    requires
        valid_half_life(half_life),
    ensures
        0 <= effective_spec(raw, elapsed, half_life) <= raw,
{
    let q = elapsed as int / half_life as int;
    let r = elapsed as int % half_life as int;
    let den = pow2(q as nat) as int * (half_life as int + r);
    lemma_pow2_pos(q as nat);
    assert(den >= half_life as int) by (nonlinear_arith)
        requires
            pow2(q as nat) >= 1,
            r >= 0,
            half_life >= 1,
            den == pow2(q as nat) as int * (half_life as int + r);
    lemma_div_is_ordered_by_denominator(raw as int * half_life as int, half_life as int, den);
    lemma_div_multiples_vanish(raw as int, half_life as int);
    if raw as int * half_life as int > 0 {
        lemma_div_pos_is_pos(raw as int * half_life as int, den);
    } else {
        assert(raw as int * half_life as int == 0);
        lemma_basic_div(0, den);
    }
}

/// Compute the effective score of a record with raw score `raw`, `elapsed`
/// milliseconds past the reference time.
pub fn effective_score(raw: u64, elapsed: u64, half_life: u64) -> (r: u64)
    requires
        valid_half_life(half_life),
        raw <= SCORE_CAP,
    ensures
        r == effective_spec(raw, elapsed, half_life),
        r <= raw,
{
    let q = elapsed / half_life;
    let rem = elapsed % half_life;
    proof {
        lemma_effective_le_raw(raw, elapsed, half_life);
    }
    if q >= 64 {
        proof {
            lemma2_to64_rest();
            if q > 64 {
                lemma_pow2_strictly_increases(64, q as nat);
            }
            let den = pow2(q as nat) as int * (half_life as int + rem as int);
            assert((raw as int) * (half_life as int) < den) by (nonlinear_arith)
                requires
                    raw < pow2(64),
                    pow2(q as nat) >= pow2(64),
                    rem >= 0,
                    half_life >= 1,
                    den == pow2(q as nat) as int * (half_life as int + rem as int);
            lemma_basic_div(raw as int * half_life as int, den);
        }
        0
    } else {
        let p = pow2_u64(q);
        proof {
            lemma2_to64_rest();
            lemma_pow2_pos(q as nat);
            if q < 63 {
                lemma_pow2_strictly_increases(q as nat, 63);
            }
            assert(p as int * (half_life as int + rem as int) <= 0x8000000000000000 * 0x20000000000)
                by (nonlinear_arith)
                requires
                    0 <= p as int <= 0x8000000000000000,
                    0 <= half_life as int + rem as int <= 0x20000000000;
            assert(p as int * (half_life as int + rem as int) >= 1) by (nonlinear_arith)
                requires
                    p as int >= 1,
                    half_life as int + rem as int >= 1;
            assert(raw as int * half_life as int <= 0x4000000000000 * 0x10000000000)
                by (nonlinear_arith)
                requires
                    0 <= raw as int <= 0x4000000000000,
                    0 <= half_life as int <= 0x10000000000;
            lemma_pow2_pos(q as nat);
        }
        let num = (raw as u128) * (half_life as u128);
        let den = (p as u128) * ((half_life + rem) as u128);
        let e = num / den;
        e as u64
    }
}

/// Grow an effective score `x` back to a raw score at the reference time.
fn grow_score(x: u64, elapsed: u64, half_life: u64) -> (r: u64)
    requires
        valid_half_life(half_life),
        x <= 2 * SCORE_CAP,
    ensures
        r == grow_spec(x, elapsed, half_life),
        r <= SCORE_CAP,
{
    let q = elapsed / half_life;
    let rem = elapsed % half_life;
    proof {
        assert(x as int * (half_life as int + rem as int) <= 0x8000000000000 * 0x20000000000)
            by (nonlinear_arith)
            requires
                0 <= x as int <= 0x8000000000000,
                0 <= half_life as int + rem as int <= 0x20000000000;
    }
    let t = (x as u128) * ((half_life + rem) as u128) / (half_life as u128);
    let ghost tg = x as int * (half_life as int + rem as int) / half_life as int;
    if t == 0 {
        proof {
            lemma_pow2_pos(q as nat);
            assert(tg * pow2(q as nat) as int == 0) by (nonlinear_arith)
                requires
                    tg == 0;
        }
        return 0;
    }
    if q >= 51 {
        proof {
            lemma2_to64_rest();
            if q > 51 {
                lemma_pow2_strictly_increases(51, q as nat);
            }
            lemma_mul_inequality(1, tg, pow2(q as nat) as int);
        }
        return SCORE_CAP;
    }
    let p = pow2_u64(q);
    proof {
        // t is at most 2 * x + 1 <= 2^52 + 1, since half_life + rem < 2 * half_life.
        assert(x as int * (half_life as int + rem as int) <= (2 * x as int + 1) * half_life as int)
            by (nonlinear_arith)
            requires
                0 <= rem < half_life,
                x >= 0;
        lemma_div_is_ordered(
            x as int * (half_life as int + rem as int),
            (2 * x as int + 1) * half_life as int,
            half_life as int,
        );
        lemma_div_multiples_vanish(2 * x as int + 1, half_life as int);
        lemma2_to64_rest();
        if q < 51 {
            lemma_pow2_strictly_increases(q as nat, 51);
        }
        assert(t as int * p as int <= 0x20000000000001 * 0x8000000000000) by (nonlinear_arith)
            requires
                0 <= t as int <= 0x20000000000001,
                0 <= p as int <= 0x8000000000000;
    }
    let prod = t * (p as u128);
    if prod >= SCORE_CAP as u128 {
        SCORE_CAP
    } else {
        prod as u64
    }
}

/// At the reference time itself no decay has happened: the effective score
/// equals the raw score.
pub proof fn lemma_effective_at_reference(raw: u64, half_life: u64)
    requires
        valid_half_life(half_life),
    ensures
        effective_spec(raw, 0, half_life) == raw as int,
{
    lemma2_to64();
    lemma_basic_div(0, half_life as int);
    assert(0int % half_life as int == 0) by {
        lemma_small_mod(0, half_life as nat);
    }
    assert(pow2(0) == 1);
    let den = pow2(0) as int * (half_life as int + 0);
    assert(den == half_life as int);
    assert(effective_spec(raw, 0, half_life) == raw as int * half_life as int / den);
    lemma_div_multiples_vanish(raw as int, half_life as int);
    assert(half_life as int * raw as int == raw as int * half_life as int) by (nonlinear_arith);
}

/// Decay correctness: one half-life after the reference time, a raw score's
/// effective value is exactly half of it (rounded down).
pub proof fn lemma_effective_after_half_life(raw: u64, half_life: u64)
    requires
        valid_half_life(half_life),
    ensures
        effective_spec(raw, half_life, half_life) == raw as int / 2,
{
    lemma2_to64();
    vstd::arithmetic::div_mod::lemma_mod_self_0(half_life as int);
    assert(half_life as int / half_life as int == 1) by {
        lemma_div_multiples_vanish(1, half_life as int);
        assert(half_life as int * 1 == half_life as int);
    }
    assert(pow2(1) == 2);
    // effective = raw * half_life / (2 * half_life) == raw / 2
    lemma_div_denominator(raw as int * half_life as int, half_life as int, 2);
    assert((raw as int * half_life as int) / half_life as int == raw as int) by {
        lemma_div_multiples_vanish(raw as int, half_life as int);
        assert(half_life as int * raw as int == raw as int * half_life as int) by (nonlinear_arith);
    }
    assert(half_life as int * 2 == 2 * (half_life as int)) by (nonlinear_arith);
}

/// Score monotonicity at the reference time: with no elapsed time, an update
/// of weight `weight` raises the raw score, and hence the effective score, by
/// exactly `weight` points ([`SCALE`] millipoints each), as long as the
/// result stays under the raw-score cap.
pub proof fn lemma_update_at_reference(raw: u64, weight: u32, half_life: u64)
    requires
        valid_half_life(half_life),
        raw + weight as int * SCALE as int <= SCORE_CAP,
    ensures
        update_spec(raw, weight, 0, half_life) == raw as int + weight as int * SCALE as int,
        effective_spec((raw + weight * SCALE) as u64, 0, half_life) == effective_spec(
            raw,
            0,
            half_life,
        ) + weight as int * SCALE as int,
        weight > 0 ==> update_spec(raw, weight, 0, half_life) > effective_spec(raw, 0, half_life),
{
    lemma_effective_at_reference((raw + weight * SCALE) as u64, half_life);
    lemma_effective_at_reference(raw, half_life);
    let x = (raw as int + weight as int * SCALE as int) as u64;
    assert(weight as int * SCALE as int >= 0) by (nonlinear_arith);
    lemma2_to64();
    assert(0int % half_life as int == 0) by {
        lemma_small_mod(0, half_life as nat);
    }
    assert(0int / half_life as int == 0) by {
        lemma_basic_div(0, half_life as int);
    }
    // grow at elapsed 0 is the identity below the cap
    let t = x as int * (half_life as int + 0) / half_life as int;
    assert(t == x as int) by {
        lemma_div_multiples_vanish(x as int, half_life as int);
        assert(half_life as int * x as int == x as int * half_life as int) by (nonlinear_arith);
    }
    assert(pow2(0) == 1);
    assert(t * pow2(0) as int == t) by (nonlinear_arith)
        requires
            pow2(0) == 1;
    if weight > 0 {
        assert(weight as int * SCALE as int >= SCALE as int) by (nonlinear_arith)
            requires
                weight >= 1;
    }
}

/// Update a raw score for a launch event of weight `weight` (in whole
/// points) at `elapsed` milliseconds past the reference time.
pub fn update_frecency(raw: u64, weight: u32, elapsed: u64, half_life: u64) -> (r: u64)
    requires
        valid_half_life(half_life),
        raw <= SCORE_CAP,
    ensures
        r == update_spec(raw, weight, elapsed, half_life),
        r <= SCORE_CAP,
{
    let eff = effective_score(raw, elapsed, half_life);
    let x = eff + (weight as u64) * SCALE;
    grow_score(x, elapsed, half_life)
}

} // verus!
