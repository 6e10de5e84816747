//! Scores and their derived quantities: total hits, accuracy and the rank
//! letter. Accuracy is kept as an exact rational (numerator, denominator)
//! instead of a float; grade thresholds are decided by cross-multiplication,
//! so a play with no hits has accuracy zero and can never divide by zero.
//! Performance is stored in hundredths of a PP point.

use vstd::prelude::*;
use crate::modes::OsuMode;

verus! {

/// A recorded play.
#[derive(Debug)]
pub struct Score {
    pub id: i32,
    pub max_combo: i32,
    pub count_50: u16,
    pub count_100: u16,
    pub count_300: u16,
    pub count_miss: u16,
    pub count_geki: u16,
    pub count_katu: u16,
    pub total_score: i64,
    pub is_perfect: bool,
    /// Numeric score status as stored (-1 failed .. 4 loved best).
    pub status: i32,
    /// Submission time, seconds since the Unix epoch.
    pub submitted_at: i64,
    pub playmode: u8,
    /// Performance points in hundredths of a point.
    pub performance: u64,
    pub mods: i32,
    pub beatmap_checksum: String,
}

impl Clone for Score {
    fn clone(&self) -> (r: Score)
        ensures
            r == *self,
    {
        Score {
            id: self.id,
            max_combo: self.max_combo,
            count_50: self.count_50,
            count_100: self.count_100,
            count_300: self.count_300,
            count_miss: self.count_miss,
            count_geki: self.count_geki,
            count_katu: self.count_katu,
            total_score: self.total_score,
            is_perfect: self.is_perfect,
            status: self.status,
            submitted_at: self.submitted_at,
            playmode: self.playmode,
            performance: self.performance,
            mods: self.mods,
            beatmap_checksum: self.beatmap_checksum.clone(),
        }
    }
}

/// Hidden and Flashlight mod bits; either one turns S/SS into the silver
/// SH/XH letters.
pub open spec fn spec_visibility_mods_applied(mods: i32) -> bool {
    mods & ((1i32 << 3) | (1i32 << 10)) != 0
}

impl Score {
    /// Hits that count for the mode: taiko counts 300s, 100s and misses
    /// only; catch adds katu, mania adds geki and katu, the standard family
    /// uses 300/100/50/miss.
    pub open spec fn spec_total_hits(&self) -> int {
        if self.playmode == 1 {
            self.count_300 + self.count_100 + self.count_miss
        } else if self.playmode == 2 {
            self.count_50 + self.count_100 + self.count_300 + self.count_miss + self.count_katu
        } else if self.playmode == 3 {
            self.count_300 + self.count_100 + self.count_50 + self.count_miss + self.count_geki
                + self.count_katu
        } else {
            self.count_300 + self.count_100 + self.count_50 + self.count_miss
        }
    }

    pub fn get_total_hits(&self) -> (r: u32)
        ensures
            r == self.spec_total_hits(),
    {
        if self.playmode == 1 {
            self.count_300 as u32 + self.count_100 as u32 + self.count_miss as u32
        } else if self.playmode == 2 {
            self.count_50 as u32 + self.count_100 as u32 + self.count_300 as u32
                + self.count_miss as u32 + self.count_katu as u32
        } else if self.playmode == 3 {
            self.count_300 as u32 + self.count_100 as u32 + self.count_50 as u32
                + self.count_miss as u32 + self.count_geki as u32 + self.count_katu as u32
        } else {
            self.count_300 as u32 + self.count_100 as u32 + self.count_50 as u32
                + self.count_miss as u32
        }
    }

    /// Numerator of the accuracy fraction for the mode.
    pub open spec fn spec_acc_num(&self) -> int {
        let m = OsuMode::spec_from_id(self.playmode);
        if m is Osu || m is Relax {
            300 * self.count_300 + 100 * self.count_100 + 50 * self.count_50
        } else if m is Taiko {
            150 * self.count_300 + 300 * self.count_100
        } else if m is Fruits {
            self.count_50 + self.count_100 + self.count_300
        } else {
            300 * (self.count_300 + self.count_geki) + 200 * self.count_katu + 100
                * self.count_100 + 50 * self.count_50
        }
    }

    /// Denominator of the accuracy fraction for the mode.
    pub open spec fn spec_acc_den(&self) -> int {
        let m = OsuMode::spec_from_id(self.playmode);
        if m is Osu || m is Relax {
            300 * self.spec_total_hits()
        } else if m is Taiko {
            self.spec_total_hits()
        } else if m is Fruits {
            self.spec_total_hits()
        } else {
            300 * self.spec_total_hits()
        }
    }

    /// The accuracy of a play as an exact fraction of one. A play with no
    /// hits has accuracy 0/1, never a division by zero.
    pub open spec fn spec_accuracy(&self) -> (int, int) {
        if self.spec_total_hits() == 0 {
            (0, 1)
        } else {
            (self.spec_acc_num(), self.spec_acc_den())
        }
    }

    pub fn calculate_accuracy(&self) -> (r: (u64, u64))
        ensures
            r.0 == self.spec_accuracy().0,
            r.1 == self.spec_accuracy().1,
            r.1 > 0,
    {
        let total = self.get_total_hits();
        if total == 0 {
            return (0, 1);
        }
        let mode = OsuMode::from_id(self.playmode);
        match mode {
            OsuMode::Osu | OsuMode::Relax => (
                300 * self.count_300 as u64 + 100 * self.count_100 as u64 + 50
                    * self.count_50 as u64,
                300 * total as u64,
            ),
            OsuMode::Taiko => (
                150 * self.count_300 as u64 + 300 * self.count_100 as u64,
                total as u64,
            ),
            OsuMode::Fruits => (
                self.count_50 as u64 + self.count_100 as u64 + self.count_300 as u64,
                total as u64,
            ),
            OsuMode::Mania => (
                300 * (self.count_300 as u64 + self.count_geki as u64) + 200
                    * self.count_katu as u64 + 100 * self.count_100 as u64 + 50
                    * self.count_50 as u64,
                300 * total as u64,
            ),
        }
    }

    /// Accuracy in basis points (hundredths of a percent), rounded down and
    /// capped at 10000. Used where a fixed-point value is stored or sent.
    pub fn accuracy_basis_points(&self) -> (r: u32)
        ensures
            r <= 10000,
            self.spec_total_hits() == 0 ==> r == 0,
            r == ({
                let scaled = 10000 * self.spec_accuracy().0 / self.spec_accuracy().1;
                if scaled > 10000 {
                    10000int
                } else {
                    scaled
                }
            }),
    {
        let (num, den) = self.calculate_accuracy();
        let scaled = (10000 * num) / den;
        if scaled > 10000 {
            10000
        } else {
            scaled as u32
        }
    }

    pub fn is_visibility_modes_applied(&self) -> (r: bool)
        ensures
            r == spec_visibility_mods_applied(self.mods),
    {
        (self.mods & ((1i32 << 3) | (1i32 << 10))) != 0
    }

    /// The rank letter of a play, decided by mode, hit counts and the
    /// hidden/flashlight mods. A failed play is "F". A play with no hits is
    /// "D": its accuracy is zero.
    pub open spec fn spec_grade(&self) -> Seq<char> {
        if self.status == -1 {
            "F"@
        } else {
            let m = OsuMode::spec_from_id(self.playmode);
            if m is Fruits {
                spec_grade_by_accuracy(self.spec_accuracy().0, self.spec_accuracy().1, self.mods, 98, 94, 90, 85)
            } else if m is Mania {
                spec_grade_by_accuracy(self.spec_accuracy().0, self.spec_accuracy().1, self.mods, 95, 90, 80, 70)
            } else {
                spec_grade_standard(
                    self.count_300 as int,
                    self.count_50 as int,
                    self.count_miss as int,
                    self.spec_total_hits(),
                    self.mods,
                )
            }
        }
    }

    pub fn calculate_grade(&self) -> (r: String)
        ensures
            r@ == self.spec_grade(),
    {
        if self.status == -1 {
            return String::from_str("F");
        }
        let mode = OsuMode::from_id(self.playmode);
        match mode {
            OsuMode::Fruits => self.calculate_grade_fruits(),
            OsuMode::Mania => self.calculate_grade_mania(),
            _ => self.calculate_grade_standard(),
        }
    }

    /// Grade for the standard, relax and taiko modes, from the share of
    /// perfect hits: all 300s is SS (XH with hidden/flashlight, else X);
    /// at least 90% 300s with at most 1% 50s and no miss is S or SH;
    /// at least 80% 300s without a miss, or 90% with, is A; one step of 10%
    /// below each is B, then C; everything else is D.
    pub fn calculate_grade_standard(&self) -> (r: String)
        ensures
            r@ == spec_grade_standard(
                self.count_300 as int,
                self.count_50 as int,
                self.count_miss as int,
                self.spec_total_hits(),
                self.mods,
            ),
    {
        let total = self.get_total_hits();
        let vis = self.is_visibility_modes_applied();
        let n300: u64 = self.count_300 as u64;
        let n50: u64 = self.count_50 as u64;
        let t: u64 = total as u64;
        if total == 0 {
            return String::from_str("D");
        }
        if n300 == t {
            return String::from_str(if vis { "XH" } else { "X" });
        }
        if 10 * n300 >= 9 * t && 100 * n50 <= t && self.count_miss == 0 {
            return String::from_str(if vis { "SH" } else { "S" });
        }
        if (10 * n300 >= 8 * t && self.count_miss == 0) || 10 * n300 >= 9 * t {
            return String::from_str("A");
        }
        if (10 * n300 >= 7 * t && self.count_miss == 0) || 10 * n300 >= 8 * t {
            return String::from_str("B");
        }
        if 10 * n300 >= 6 * t {
            return String::from_str("C");
        }
        String::from_str("D")
    }

    /// Grade for catch: by accuracy, with thresholds 98, 94, 90 and 85
    /// percent below the perfect 100.
    pub fn calculate_grade_fruits(&self) -> (r: String)
        ensures
            r@ == spec_grade_by_accuracy(
                self.spec_accuracy().0,
                self.spec_accuracy().1,
                self.mods,
                98,
                94,
                90,
                85,
            ),
    {
        self.grade_by_accuracy(98, 94, 90, 85)
    }

    /// Grade for mania: by accuracy, with thresholds 95, 90, 80 and 70
    /// percent below the perfect 100.
    pub fn calculate_grade_mania(&self) -> (r: String)
        ensures
            r@ == spec_grade_by_accuracy(
                self.spec_accuracy().0,
                self.spec_accuracy().1,
                self.mods,
                95,
                90,
                80,
                70,
            ),
    {
        self.grade_by_accuracy(95, 90, 80, 70)
    }

    fn grade_by_accuracy(&self, s_cut: u64, a_cut: u64, b_cut: u64, c_cut: u64) -> (r: String)
        requires
            s_cut <= 100,
            a_cut <= 100,
            b_cut <= 100,
            c_cut <= 100,
        ensures
            r@ == spec_grade_by_accuracy(
                self.spec_accuracy().0,
                self.spec_accuracy().1,
                self.mods,
                s_cut as int,
                a_cut as int,
                b_cut as int,
                c_cut as int,
            ),
    {
        let (num, den) = self.calculate_accuracy();
        let vis = self.is_visibility_modes_applied();
        proof {
            assert(num <= 300 * 0x1_0000 * 6 && den <= 300 * 0x1_0000 * 6);
            assert(s_cut * den <= 100 * den && a_cut * den <= 100 * den && b_cut * den <= 100 * den
                && c_cut * den <= 100 * den) by (nonlinear_arith)
                requires
                    s_cut <= 100,
                    a_cut <= 100,
                    b_cut <= 100,
                    c_cut <= 100,
                    den >= 0,
            ;
        }
        if 100 * num >= 100 * den && num > 0 {
            String::from_str(if vis { "XH" } else { "X" })
        } else if 100 * num >= s_cut * den {
            String::from_str(if vis { "SH" } else { "S" })
        } else if 100 * num >= a_cut * den {
            String::from_str("A")
        } else if 100 * num >= b_cut * den {
            String::from_str("B")
        } else if 100 * num >= c_cut * den {
            String::from_str("C")
        } else {
            String::from_str("D")
        }
    }
}

/// Letter for the accuracy fraction `num/den` against percent thresholds:
/// the full 100 percent earns X (XH with hidden/flashlight), then S/SH, A,
/// B, C and D in descending bands. A zero accuracy play earns D unless it is
/// empty of judged objects, which also earns D.
pub open spec fn spec_grade_by_accuracy(num: int, den: int, mods: i32, s_cut: int, a_cut: int, b_cut: int, c_cut: int) -> Seq<char> {
    let vis = spec_visibility_mods_applied(mods);
    if 100 * num >= 100 * den && num > 0 {
        if vis {
            "XH"@
        } else {
            "X"@
        }
    } else if 100 * num >= s_cut * den {
        if vis {
            "SH"@
        } else {
            "S"@
        }
    } else if 100 * num >= a_cut * den {
        "A"@
    } else if 100 * num >= b_cut * den {
        "B"@
    } else if 100 * num >= c_cut * den {
        "C"@
    } else {
        "D"@
    }
}

/// Letter for the standard family of modes, from hit-count shares.
pub open spec fn spec_grade_standard(n300: int, n50: int, nmiss: int, total: int, mods: i32) -> Seq<char> {
    let vis = spec_visibility_mods_applied(mods);
    if total == 0 {
        "D"@
    } else if n300 == total {
        if vis {
            "XH"@
        } else {
            "X"@
        }
    } else if 10 * n300 >= 9 * total && 100 * n50 <= total && nmiss == 0 {
        if vis {
            "SH"@
        } else {
            "S"@
        }
    } else if (10 * n300 >= 8 * total && nmiss == 0) || 10 * n300 >= 9 * total {
        "A"@
    } else if (10 * n300 >= 7 * total && nmiss == 0) || 10 * n300 >= 8 * total {
        "B"@
    } else if 10 * n300 >= 6 * total {
        "C"@
    } else {
        "D"@
    }
}

/// The silver letters imply hidden or flashlight: whenever a grade comes out
/// as XH or SH, the mods mask has one of those bits set.
pub proof fn lemma_silver_grades_imply_visibility_mods(s: Score)
    ensures
        s.spec_grade() == "XH"@ || s.spec_grade() == "SH"@ ==> spec_visibility_mods_applied(s.mods),
{
    reveal_strlit("XH");
    reveal_strlit("SH");
    reveal_strlit("X");
    reveal_strlit("S");
    reveal_strlit("A");
    reveal_strlit("B");
    reveal_strlit("C");
    reveal_strlit("D");
    reveal_strlit("F");
    assert("XH"@.len() == 2 && "SH"@.len() == 2 && "X"@.len() == 1 && "S"@.len() == 1 && "A"@.len()
        == 1 && "B"@.len() == 1 && "C"@.len() == 1 && "D"@.len() == 1 && "F"@.len() == 1);
    assert("XH"@[0] == 'X' && "SH"@[0] == 'S');
}

/// The rank letter depends only on the mode, the hit counts, the mods mask
/// and the failed flag: two plays that agree on those agree on the letter,
/// whatever else differs between them.
pub proof fn lemma_grade_depends_only_on_inputs(a: Score, b: Score)
    requires
        a.playmode == b.playmode,
        a.count_300 == b.count_300,
        a.count_100 == b.count_100,
        a.count_50 == b.count_50,
        a.count_miss == b.count_miss,
        a.count_geki == b.count_geki,
        a.count_katu == b.count_katu,
        a.mods == b.mods,
        (a.status == -1) == (b.status == -1),
    ensures
        a.spec_grade() == b.spec_grade(),
{
}

} // verus!
