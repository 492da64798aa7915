use vstd::prelude::*;
use vstd::arithmetic::div_mod::{lemma_fundamental_div_mod, lemma_mod_pos_bound};

verus! {

/// Microseconds per quarter note at 120 beats per minute.
pub const DEFAULT_TEMPO: u32 = 500000;

/// Resolution used before any sequence is loaded.
pub const DEFAULT_TICKS_PER_QUARTER: u16 = 480;

/// Whole ticks in `elapsed_us` microseconds at `tempo` microseconds per
/// quarter note and `tpq` ticks per quarter note, rounded down.
pub open spec fn spec_ticks_for(elapsed_us: int, tempo: int, tpq: int) -> int {
    elapsed_us * tpq / tempo
}

/// Whole microseconds taken by `ticks` ticks, rounded down.
pub open spec fn spec_time_for(ticks: int, tempo: int, tpq: int) -> int {
    ticks * tempo / tpq
}

pub open spec fn saturate(x: int) -> int {
    if x > u64::MAX { u64::MAX as int } else { x }
}

/// Converts elapsed microseconds to ticks, rounding down; a result beyond
/// `u64::MAX` saturates.
pub fn ticks_for(elapsed_us: u64, tempo: u32, tpq: u16) -> (r: u64)
    requires
        tempo > 0,
    ensures
        r == saturate(spec_ticks_for(elapsed_us as int, tempo as int, tpq as int)),
{
    let e = elapsed_us as u128;
    let q = tpq as u128;
    proof {
        assert(e * q <= 0xffff_ffff_ffff_ffffu128 * 0xffffu128) by (nonlinear_arith)
            requires e <= 0xffff_ffff_ffff_ffffu128, q <= 0xffffu128;
    }
    let t = e * q / (tempo as u128);
    if t > u64::MAX as u128 {
        u64::MAX
    } else {
        t as u64
    }
}

/// Converts ticks to microseconds, rounding down; a result beyond
/// `u64::MAX` saturates.
pub fn time_for(ticks: u64, tempo: u32, tpq: u16) -> (r: u64)
    requires
        tpq > 0,
    ensures
        r == saturate(spec_time_for(ticks as int, tempo as int, tpq as int)),
{
    let k = ticks as u128;
    let m = tempo as u128;
    proof {
        assert(k * m <= 0xffff_ffff_ffff_ffffu128 * 0xffff_ffffu128) by (nonlinear_arith)
            requires k <= 0xffff_ffff_ffff_ffffu128, m <= 0xffff_ffffu128;
    }
    let t = k * m / (tpq as u128);
    if t > u64::MAX as u128 {
        u64::MAX
    } else {
        t as u64
    }
}

/// Converting an elapsed time to ticks and back (`time_for(ticks_for(e))`)
/// never overshoots, and falls
/// short of it by less than one tick's duration plus the one microsecond lost to
/// rounding down: `(elapsed - back) * tpq < tempo + tpq`.
pub proof fn lemma_round_trip(elapsed_us: u64, tempo: u32, tpq: u16)
    requires
        tempo > 0,
        tpq > 0,
        spec_ticks_for(elapsed_us as int, tempo as int, tpq as int) <= u64::MAX,
    ensures
        ({
            let k = saturate(spec_ticks_for(elapsed_us as int, tempo as int, tpq as int));
            let back = saturate(spec_time_for(k, tempo as int, tpq as int));
            &&& 0 <= back <= elapsed_us
            &&& (elapsed_us - back) * tpq < tempo + tpq
        }),
{
    let e = elapsed_us as int;
    let t = tempo as int;
    let q = tpq as int;
    let k = e * q / t;
    lemma_fundamental_div_mod(e * q, t);
    lemma_mod_pos_bound(e * q, t);
    assert(0 <= e * q) by (nonlinear_arith) requires 0 <= e, 0 <= q;
    assert(k * t <= e * q < k * t + t) by (nonlinear_arith)
        requires e * q == t * k + (e * q) % t, 0 <= (e * q) % t < t;
    assert(0 <= k) by (nonlinear_arith) requires k * t <= e * q, 0 <= e * q, t > 0, e * q < k * t + t;
    let back = k * t / q;
    lemma_fundamental_div_mod(k * t, q);
    lemma_mod_pos_bound(k * t, q);
    assert(0 <= k * t) by (nonlinear_arith) requires 0 <= k, 0 <= t;
    assert(back * q <= k * t < back * q + q) by (nonlinear_arith)
        requires k * t == q * back + (k * t) % q, 0 <= (k * t) % q < q;
    assert(0 <= back <= e) by (nonlinear_arith)
        requires back * q <= k * t, k * t <= e * q, q > 0, 0 <= k * t, k * t < back * q + q;
    assert((e - back) * q < t + q) by (nonlinear_arith)
        requires e * q < k * t + t, k * t < back * q + q;
}

} // verus!
