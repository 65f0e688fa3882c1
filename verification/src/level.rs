//! Experience levels: the leveling formula, its inverse threshold, and the
//! progress percentage toward the next level.

use vstd::prelude::*;

verus! {

/// The largest level whose next-level threshold still fits in an `i64`:
/// `MAX_LEVEL * MAX_LEVEL * 100 <= i64::MAX`.
pub const MAX_LEVEL: i64 = 303_700_049;

/// The largest experience total the ledger accepts. Every total up to this
/// bound has a level of at most `MAX_LEVEL`, so the next-level threshold of
/// any stored level can still be computed without overflow.
pub const MAX_TOTAL_XP: i64 = 9_223_371_976_260_240_099;

/// Minimum experience at which a category holds `level`: `(level - 1)^2 * 100`.
pub open spec fn spec_xp_threshold(level: int) -> int {
    (level - 1) * (level - 1) * 100
}

/// `level` is the level that belongs to the experience total `xp`: levels
/// start at 1, and for positive `xp` the total lies in the half-open band
/// `[spec_xp_threshold(level), spec_xp_threshold(level + 1))`.
pub open spec fn spec_is_level_of(xp: int, level: int) -> bool {
    if xp <= 0 {
        level == 1
    } else {
        &&& level >= 1
        &&& spec_xp_threshold(level) <= xp < spec_xp_threshold(level + 1)
    }
}

/// Progress through the current level's band, as a whole percentage clamped
/// to `[0, 100]`; a non-positive band width counts as full progress.
pub open spec fn spec_progress_percent(xp: int, level: int) -> int {
    let denom = spec_xp_threshold(level + 1) - spec_xp_threshold(level);
    if denom <= 0 {
        100
    } else {
        let gained = xp - spec_xp_threshold(level);
        if gained < 0 {
            0
        } else if gained >= denom {
            100
        } else {
            gained * 100 / denom
        }
    }
}

/// The level of an experience total is unique: two levels that both satisfy
/// the band characterization for the same total are equal.
pub proof fn lemma_level_unique(xp: int, a: int, b: int)
    requires
        spec_is_level_of(xp, a),
        spec_is_level_of(xp, b),
    ensures
        a == b,
{
    if xp > 0 {
        if a < b {
            assert(a * a * 100 <= (b - 1) * (b - 1) * 100) by (nonlinear_arith)
                requires 1 <= a, a + 1 <= b;
        }
        if b < a {
            assert(b * b * 100 <= (a - 1) * (a - 1) * 100) by (nonlinear_arith)
                requires 1 <= b, b + 1 <= a;
        }
    }
}

/// Every non-negative total sits inside the band of its own level: the
/// threshold of the level is at or below the total, and the threshold of the
/// next level is strictly above it.
pub proof fn lemma_level_band(xp: int, level: int)
    requires
        xp >= 0,
        spec_is_level_of(xp, level),
    ensures
        spec_xp_threshold(level) <= xp < spec_xp_threshold(level + 1),
{
    if xp <= 0 {
        assert(spec_xp_threshold(1) == 0) by (nonlinear_arith);
        assert(spec_xp_threshold(2) == 100) by (nonlinear_arith);
    }
}

/// A total within the ledger's bound has a level of at most `MAX_LEVEL`.
pub proof fn lemma_level_bounded(xp: int, level: int)
    requires
        xp <= MAX_TOTAL_XP,
        spec_is_level_of(xp, level),
    ensures
        1 <= level <= MAX_LEVEL,
{
    if xp > 0 && level > MAX_LEVEL {
        assert(MAX_LEVEL * MAX_LEVEL * 100 <= (level - 1) * (level - 1) * 100) by (nonlinear_arith)
            requires MAX_LEVEL <= level - 1;
    }
}

/// Experience needed to first reach `level`.
pub fn calculate_xp_for_level(level: i64) -> (xp: i64)
    requires
        0 <= level <= MAX_LEVEL + 1,
    ensures
        xp == spec_xp_threshold(level as int),
        0 <= xp,
{
    proof {
        assert((level - 1) * (level - 1) * 100 <= (MAX_LEVEL as int) * (MAX_LEVEL as int) * 100)
            by (nonlinear_arith)
            requires 0 <= level <= MAX_LEVEL + 1;
        assert((level - 1) * (level - 1) * 100 >= 0) by (nonlinear_arith);
    }
    (level - 1) * (level - 1) * 100
}

/// Experience needed to reach the level after `current_level`.
pub fn get_xp_for_next_level(current_level: i64) -> (xp: i64)
    requires
        0 <= current_level <= MAX_LEVEL,
    ensures
        xp == spec_xp_threshold(current_level + 1),
{
    calculate_xp_for_level(current_level + 1)
}

/// Level reached by an experience total: 1 for non-positive totals, and
/// otherwise the unique level whose band contains the total.
pub fn calculate_level(xp: i64) -> (level: i64)
    ensures
        spec_is_level_of(xp as int, level as int),
        1 <= level <= MAX_LEVEL + 1,
{
    if xp <= 0 {
        return 1;
    }
    let q = xp / 100;
    proof {
        vstd::arithmetic::div_mod::lemma_fundamental_div_mod(xp as int, 100);
    }
    let mut level: i64 = 1;
    while level * level <= q
        invariant
            1 <= level,
            0 <= q == xp as int / 100,
            xp as int == 100 * q + xp as int % 100,
            0 <= xp as int % 100 < 100,
            (level - 1) * (level - 1) <= q,
            level <= MAX_LEVEL + 1,
            (level as int) * (level as int) <= i64::MAX as int,
        decreases q + 1 - level,
    {
        proof {
            assert(level <= q) by (nonlinear_arith)
                requires 1 <= level, level * level <= q;
            assert(level + 1 <= MAX_LEVEL + 1) by (nonlinear_arith)
                requires
                    level * level <= q,
                    100 * q <= 0x7fff_ffff_ffff_ffff,
                    1 <= level,
                    MAX_LEVEL == 303_700_049;
            assert((level + 1) * (level + 1) <= i64::MAX as int) by (nonlinear_arith)
                requires
                    1 <= level,
                    level + 1 <= MAX_LEVEL + 1,
                    MAX_LEVEL == 303_700_049,
                    i64::MAX == 0x7fff_ffff_ffff_ffff;
        }
        level = level + 1;
    }
    proof {
        assert(spec_xp_threshold(level as int) <= xp as int) by (nonlinear_arith)
            requires
                (level - 1) * (level - 1) <= q,
                xp as int == 100 * q + xp as int % 100,
                0 <= xp as int % 100,
                spec_xp_threshold(level as int) == (level - 1) * (level - 1) * 100;
        assert((xp as int) < spec_xp_threshold((level as int) + 1)) by (nonlinear_arith)
            requires
                q < level * level,
                xp as int == 100 * q + xp as int % 100,
                xp as int % 100 < 100,
                spec_xp_threshold((level as int) + 1) == level * level * 100;
    }
    level
}

/// Progress percentage toward the next level, clamped to `[0, 100]`.
pub fn calculate_progress_percentage(total_xp: i64, current_level: i64) -> (pct: i64)
    requires
        0 <= total_xp,
        0 <= current_level <= MAX_LEVEL,
    ensures
        pct == spec_progress_percent(total_xp as int, current_level as int),
        0 <= pct <= 100,
{
    let cur = calculate_xp_for_level(current_level);
    let next = calculate_xp_for_level(current_level + 1);
    let denom = next - cur;
    if denom <= 0 {
        return 100;
    }
    let gained = total_xp - cur;
    if gained < 0 {
        0
    } else if gained >= denom {
        100
    } else {
        proof {
            assert(denom <= (2 * MAX_LEVEL + 1) * 100) by (nonlinear_arith)
                requires
                    denom == current_level * current_level * 100
                        - (current_level - 1) * (current_level - 1) * 100,
                    0 <= current_level <= MAX_LEVEL;
            assert(0 <= gained * 100 / (denom as int) < 100) by (nonlinear_arith)
                requires 0 <= gained < denom, 0 < denom;
        }
        gained * 100 / denom
    }
}

/// At the lower edge of a level's band the progress is 0, and one point
/// short of the next band it is still strictly below 100.
pub proof fn lemma_progress_band_edges(level: int)
    requires
        level >= 1,
    ensures
        spec_progress_percent(spec_xp_threshold(level), level) == 0,
        spec_progress_percent(spec_xp_threshold(level + 1) - 1, level) < 100,
{
    let denom = spec_xp_threshold(level + 1) - spec_xp_threshold(level);
    assert(denom == (2 * level - 1) * 100) by (nonlinear_arith)
        requires denom == level * level * 100 - (level - 1) * (level - 1) * 100;
    assert(denom >= 100);
    assert((denom - 1) * 100 / denom < 100) by (nonlinear_arith)
        requires denom >= 100;
}

} // verus!

