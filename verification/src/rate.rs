//! The delta engine: turns two snapshots into per-interface rates.
//!
//! A rate is the change of a cumulative byte counter over one tick, divided
//! by 1024 and shown with two decimal places.  It is represented here in
//! hundredths of a kibibyte (the two decimal digits scaled into an integer),
//! rounded half-to-even like the standard fixed-precision display.

use vstd::prelude::*;
use indexmap::IndexMap;
use crate::snapshot::{index_map_entries, spec_lookup, snapshot_get};

verus! {

/// Change in a cumulative byte counter between two samples, clamped to zero
/// when the counter went backwards (reset or wraparound).
pub open spec fn spec_delta(prev: u64, cur: u64) -> nat {
    if cur >= prev {
        (cur - prev) as nat
    } else {
        0
    }
}

/// Saturating counter difference: never negative, exact when `cur >= prev`.
pub fn saturating_delta(prev: u64, cur: u64) -> (r: u64)
    ensures
        r as nat == spec_delta(prev, cur),
{
    if cur >= prev {
        cur - prev
    } else {
        0
    }
}

/// `n / d` rounded to the nearest integer, ties going to the even neighbour.
pub open spec fn round_div_half_even(n: nat, d: nat) -> nat
    recommends
        d > 0,
{
    let q = n / d;
    let r = n % d;
    if 2 * r < d {
        q
    } else if 2 * r > d {
        q + 1
    } else if q % 2 == 0 {
        q
    } else {
        q + 1
    }
}

/// The displayed rate for one counter pair, in hundredths of a kibibyte per
/// tick: `delta / 1024`, scaled to two decimal places and rounded.
pub open spec fn spec_rate_centi(prev: u64, cur: u64) -> nat {
    round_div_half_even(spec_delta(prev, cur) * 100, 1024)
}

/// Computes the displayed rate for one counter pair.
pub fn rate_centi(prev: u64, cur: u64) -> (r: u64)
    ensures
        r as nat == spec_rate_centi(prev, cur),
{
    let d = saturating_delta(prev, cur);
    let scaled: u128 = (d as u128) * 100;
    let q: u128 = scaled / 1024;
    let rem: u128 = scaled % 1024;
    proof {
        vstd::arithmetic::div_mod::lemma_fundamental_div_mod(scaled as int, 1024);
        assert(1024 * q <= u64::MAX as int * 100);
        assert(q < u64::MAX as int);
    }
    let rounded: u128 = if 2 * rem < 1024 {
        q
    } else if 2 * rem > 1024 {
        q + 1
    } else if q % 2 == 0 {
        q
    } else {
        q + 1
    };
    rounded as u64
}

/// The rate result for one interface: both directions when the
/// interface is present in both snapshots, nothing otherwise.
pub open spec fn spec_rate(
    pes: Seq<(Seq<char>, (u64, u64))>,
    ces: Seq<(Seq<char>, (u64, u64))>,
    name: Seq<char>,
) -> Option<(nat, nat)> {
    match (spec_lookup(pes, name), spec_lookup(ces, name)) {
        (Some(p), Some(c)) => Some((spec_rate_centi(p.0, c.0), spec_rate_centi(p.1, c.1))),
        _ => None,
    }
}

/// Per-interface rate between two snapshots, in hundredths of a kibibyte:
/// `Some((rx, tx))` when the interface is in both, `None` otherwise.
pub fn rate(
    previous: &IndexMap<String, (u64, u64)>,
    current: &IndexMap<String, (u64, u64)>,
    interface: &String,
) -> (r: Option<(u64, u64)>)
    ensures
        match r {
            Some(p) => spec_rate(
                index_map_entries(*previous),
                index_map_entries(*current),
                interface@,
            ) == Some((p.0 as nat, p.1 as nat)),
            None => spec_rate(
                index_map_entries(*previous),
                index_map_entries(*current),
                interface@,
            ) is None,
        },
{
    match (snapshot_get(previous, interface), snapshot_get(current, interface)) {
        (Some(p), Some(c)) => Some((rate_centi(p.0, c.0), rate_centi(p.1, c.1))),
        _ => None,
    }
}

/// When counters do not decrease, the delta is exactly `cur - prev` and the
/// rate is exactly that difference divided by 1024, to the displayed
/// precision.
pub proof fn lemma_rate_exact_when_monotonic(prev: u64, cur: u64)
    requires
        prev <= cur,
    ensures
        spec_delta(prev, cur) == cur - prev,
        spec_rate_centi(prev, cur) == round_div_half_even(((cur - prev) * 100) as nat, 1024),
{
}

/// When a counter went backwards, the rate component is zero, never
/// negative.
pub proof fn lemma_rate_zero_on_counter_reset(prev: u64, cur: u64)
    requires
        cur < prev,
    ensures
        spec_delta(prev, cur) == 0,
        spec_rate_centi(prev, cur) == 0,
{
}

} // verus!
