//! The level curve: the total score a level requires and the level a total
//! score earns. Below level 100 the curve is a cubic plus an exponential
//! term 1.25·1.8^(level−60), computed here in exact integer arithmetic and
//! rounded down; from level 100 on it is linear.

use vstd::prelude::*;

verus! {

pub open spec fn pow2(k: nat) -> nat
    decreases k,
{
    if k == 0 {
        1
    } else {
        2 * pow2((k - 1) as nat)
    }
}

/// The exponential part of the curve in quarter units: 1.25 is five
/// quarters, and each level up multiplies by 1.8 in fixed point, rounding
/// down.
pub open spec fn exp_quarters(k: nat) -> nat
    decreases k,
{
    if k == 0 {
        5
    } else {
        exp_quarters((k - 1) as nat) * 9 / 5
    }
}

/// The exponential part of the curve: 1.25·1.8^(level−60) in the fixed
/// point above; zero below level 60.
pub open spec fn spec_exp_term(level: int) -> int {
    if level < 60 {
        0
    } else {
        (exp_quarters((level - 60) as nat) / 4) as int
    }
}

/// Total score needed below level 100.
pub open spec fn spec_score_less(level: int) -> int {
    1666 * (4 * level * level * level - 3 * level * level - level) + spec_exp_term(level)
}

/// Total score needed from level 100 on: linear.
pub open spec fn spec_score_more(level: int) -> int {
    26931190827 + 99999999999 * (level - 100)
}

proof fn lemma_exp_quarters_bound(k: nat)
    ensures
        exp_quarters(k) <= 5 * pow2(k),
    decreases k,
{
    if k > 0 {
        lemma_exp_quarters_bound((k - 1) as nat);
        let q = exp_quarters((k - 1) as nat);
        assert(q * 9 / 5 <= 2 * q) by (nonlinear_arith)
            requires
                q >= 0,
        ;
        assert(2 * q <= 2 * (5 * pow2((k - 1) as nat))) by (nonlinear_arith)
            requires
                q <= 5 * pow2((k - 1) as nat),
        ;
    }
}

proof fn lemma_pow2_mono(a: nat, b: nat)
    requires
        a <= b,
    ensures
        pow2(a) <= pow2(b),
    decreases b - a,
{
    if a < b {
        lemma_pow2_mono(a, (b - 1) as nat);
        lemma_pow2_pos((b - 1) as nat);
    }
}

proof fn lemma_pow2_pos(k: nat)
    ensures
        pow2(k) >= 1,
    decreases k,
{
    if k > 0 {
        lemma_pow2_pos((k - 1) as nat);
    }
}

proof fn lemma_pow2_40()
    ensures
        pow2(40) == 0x100_0000_0000,
{
    reveal_with_fuel(pow2, 41);
}

/// Compute the exponential part for a level up to 100.
fn exp_term(level: i64) -> (r: i64)
    requires
        level <= 100,
    ensures
        r == spec_exp_term(level as int),
        0 <= r <= 0x7fff_ffff_ffff,
{
    if level < 60 {
        return 0;
    }
    let k: u32 = (level - 60) as u32;
    let mut t: u64 = 5;
    let mut i: u32 = 0;
    proof {
        lemma_pow2_40();
    }
    while i < k
        invariant
            i <= k <= 40,
            t == exp_quarters(i as nat),
            t <= 5 * 0x100_0000_0000,
        decreases k - i,
    {
        proof {
            lemma_exp_quarters_bound((i + 1) as nat);
            lemma_pow2_mono((i + 1) as nat, 40);
            lemma_pow2_40();
        }
        t = t * 9 / 5;
        i = i + 1;
    }
    (t / 4) as i64
}

/// Total score a level below 100 requires.
pub fn calculate_score_less_than_100(score: i64) -> (r: i64)
    requires
        0 <= score <= 100,
    ensures
        r == spec_score_less(score as int),
{
    proof {
        assert(0 <= score * score <= 10000 && 0 <= score * score * score <= 1000000) by (nonlinear_arith)
            requires
                0 <= score <= 100,
        ;
    }
    let s2: i64 = score * score;
    proof {
        assert(s2 * score == score * score * score) by (nonlinear_arith)
            requires
                s2 == score * score,
        ;
    }
    let s3: i64 = s2 * score;
    proof {
        assert(4 * score * score * score == 4 * s3 && 3 * score * score == 3 * s2) by (nonlinear_arith)
            requires
                s2 == score * score,
                s3 == score * score * score,
        ;
    }
    let cubic: i64 = 1666 * (4 * s3 - 3 * s2 - score);
    let e = exp_term(score);
    cubic + e
}

/// Total score a level of 100 or above requires.
pub fn calculate_score_more_than_100(score: i64) -> (r: i64)
    requires
        0 <= score <= 1001,
    ensures
        r == spec_score_more(score as int),
{
    26931190827 + 99999999999 * (score - 100)
}

/// Total score a level requires, on either side of the curve.
pub fn calculate_score_from_level(level: i64) -> (r: i64)
    requires
        0 <= level <= 1000,
    ensures
        level <= 100 ==> r == spec_score_less(level as int),
        level > 100 ==> r == spec_score_more(level as int),
{
    if level <= 100 {
        calculate_score_less_than_100(level)
    } else {
        calculate_score_more_than_100(level)
    }
}

/// The first level in the low range whose requirement reaches the score.
pub open spec fn spec_scan_low(score: int, i: int) -> int
    decreases 100 - i,
{
    if i >= 100 {
        spec_scan_high(score, 100)
    } else if score <= spec_score_less(i) {
        i
    } else {
        spec_scan_low(score, i + 1)
    }
}

/// The first level in the high range whose requirement reaches the score.
pub open spec fn spec_scan_high(score: int, i: int) -> int
    decreases 1000 - i,
{
    if i >= 1000 {
        0
    } else if score <= spec_score_more(i) {
        i
    } else {
        spec_scan_high(score, i + 1)
    }
}

/// The level a total score earns.
pub open spec fn spec_calculate_level(score: int) -> int {
    if score <= spec_score_less(100) {
        spec_scan_low(score, 0)
    } else {
        spec_scan_high(score, 100)
    }
}

pub fn calculate_level(score: i64) -> (r: i64)
    ensures
        r == spec_calculate_level(score as int),
{
    if score <= calculate_score_less_than_100(100) {
        let mut i: i64 = 0;
        while i < 100
            invariant
                0 <= i <= 100,
                score <= spec_score_less(100),
                spec_scan_low(score as int, 0) == spec_scan_low(score as int, i as int),
            decreases 100 - i,
        {
            if score <= calculate_score_less_than_100(i) {
                proof {
                    assert(spec_scan_low(score as int, i as int) == i);
                }
                return i;
            }
            i = i + 1;
        }
        proof {
            assert(spec_scan_low(score as int, 100) == spec_scan_high(score as int, 100));
            assert(spec_calculate_level(score as int) == spec_scan_high(score as int, 100));
        }
    }
    proof {
        assert(spec_calculate_level(score as int) == spec_scan_high(score as int, 100));
    }
    let mut i: i64 = 100;
    while i < 1000
        invariant
            100 <= i <= 1000,
            spec_calculate_level(score as int) == spec_scan_high(score as int, i as int),
        decreases 1000 - i,
    {
        if score <= calculate_score_more_than_100(i) {
            proof {
                assert(spec_scan_high(score as int, i as int) == i);
            }
            return i;
        }
        i = i + 1;
    }
    0
}

/// Progress into the current level, in whole percent of the next level's
/// requirement (zero when that requirement is not positive).
pub fn calculate_level_progress(total_score: i64) -> (r: i64)
    requires
        0 <= total_score <= 0x7fff_ffff_ffff_ffffi64 / 100,
    ensures
        ({
            let next = if spec_calculate_level(total_score as int) + 1 <= 100 {
                spec_score_less(spec_calculate_level(total_score as int) + 1)
            } else {
                spec_score_more(spec_calculate_level(total_score as int) + 1)
            };
            r == if next > 0 {
                total_score * 100 / next
            } else {
                0
            }
        }),
{
    let level = calculate_level(total_score);
    proof {
        lemma_level_range(total_score as int);
    }
    let next = calculate_score_from_level(level + 1);
    if next > 0 {
        proof {
            assert(total_score * 100 <= i64::MAX) by (nonlinear_arith)
                requires
                    0 <= total_score <= 0x7fff_ffff_ffff_ffffi64 / 100,
            ;
        }
        (total_score * 100) / next
    } else {
        0
    }
}

/// The computed level always lies in the curve's range.
proof fn lemma_level_range(score: int)
    ensures
        0 <= spec_calculate_level(score) <= 999,
{
    lemma_scan_low_range(score, 0);
    lemma_scan_high_range(score, 100);
}

proof fn lemma_scan_low_range(score: int, i: int)
    requires
        0 <= i <= 100,
    ensures
        0 <= spec_scan_low(score, i) <= 999,
    decreases 100 - i,
{
    if i >= 100 {
        lemma_scan_high_range(score, 100);
    } else if score <= spec_score_less(i) {
    } else {
        lemma_scan_low_range(score, i + 1);
    }
}

proof fn lemma_scan_high_range(score: int, i: int)
    requires
        100 <= i <= 1000,
    ensures
        0 <= spec_scan_high(score, i) <= 999,
    decreases 1000 - i,
{
    if i >= 1000 {
    } else if score <= spec_score_more(i) {
    } else {
        lemma_scan_high_range(score, i + 1);
    }
}

} // verus!
