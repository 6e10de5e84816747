//! Score and beatmap statuses, with their fixed numeric codes, and the rules
//! mapping a beatmap's status to the statuses a play on it can earn.

use vstd::prelude::*;

verus! {

/// Status of a recorded play. The numeric codes are fixed by storage:
/// -1 failed, 0 unranked, 1 ranked, 2 best, 3 loved, 4 loved best.
#[derive(Debug, Clone, Copy, PartialEq, Eq, Structural)]
pub enum ScoreStatus {
    Failed,
    Unranked,
    Ranked,
    Best,
    Loved,
    LovedBest,
}

impl ScoreStatus {
    pub open spec fn spec_to_db(&self) -> i32 {
        match self {
            ScoreStatus::Failed => -1i32,
            ScoreStatus::Unranked => 0,
            ScoreStatus::Ranked => 1,
            ScoreStatus::Best => 2,
            ScoreStatus::Loved => 3,
            ScoreStatus::LovedBest => 4,
        }
    }

    #[verifier::when_used_as_spec(spec_to_db)]
    pub fn to_db(&self) -> (r: i32)
        ensures
            r == self.spec_to_db(),
    {
        match self {
            ScoreStatus::Failed => -1,
            ScoreStatus::Unranked => 0,
            ScoreStatus::Ranked => 1,
            ScoreStatus::Best => 2,
            ScoreStatus::Loved => 3,
            ScoreStatus::LovedBest => 4,
        }
    }

    /// The status a numeric code denotes; codes out of range read as
    /// unranked.
    pub open spec fn spec_from_db(value: i32) -> ScoreStatus {
        if value == -1 {
            ScoreStatus::Failed
        } else if value == 1 {
            ScoreStatus::Ranked
        } else if value == 2 {
            ScoreStatus::Best
        } else if value == 3 {
            ScoreStatus::Loved
        } else if value == 4 {
            ScoreStatus::LovedBest
        } else {
            ScoreStatus::Unranked
        }
    }

    #[verifier::when_used_as_spec(spec_from_db)]
    pub fn from_db(value: i32) -> (r: ScoreStatus)
        ensures
            r == ScoreStatus::spec_from_db(value),
    {
        match value {
            -1 => ScoreStatus::Failed,
            1 => ScoreStatus::Ranked,
            2 => ScoreStatus::Best,
            3 => ScoreStatus::Loved,
            4 => ScoreStatus::LovedBest,
            _ => ScoreStatus::Unranked,
        }
    }

    /// The status a new personal best earns on a map of the given status:
    /// best on ranked and approved maps, loved-best on qualified and loved
    /// maps, unranked anywhere else.
    pub open spec fn spec_best_for(status: BeatmapStatus) -> ScoreStatus {
        match status {
            BeatmapStatus::Ranked | BeatmapStatus::Approved => ScoreStatus::Best,
            BeatmapStatus::Qualified | BeatmapStatus::Loved => ScoreStatus::LovedBest,
            _ => ScoreStatus::Unranked,
        }
    }

    #[verifier::when_used_as_spec(spec_best_for)]
    pub fn find_suitable_best_status_for_beatmap(status: BeatmapStatus) -> (r: ScoreStatus)
        ensures
            r == ScoreStatus::spec_best_for(status),
    {
        match status {
            BeatmapStatus::Ranked | BeatmapStatus::Approved => ScoreStatus::Best,
            BeatmapStatus::Qualified | BeatmapStatus::Loved => ScoreStatus::LovedBest,
            _ => ScoreStatus::Unranked,
        }
    }

    /// The status a superseded best falls back to on a map of the given
    /// status: ranked, loved, or unranked, matching the best status above.
    pub open spec fn spec_ranked_for(status: BeatmapStatus) -> ScoreStatus {
        match status {
            BeatmapStatus::Ranked | BeatmapStatus::Approved => ScoreStatus::Ranked,
            BeatmapStatus::Qualified | BeatmapStatus::Loved => ScoreStatus::Loved,
            _ => ScoreStatus::Unranked,
        }
    }

    #[verifier::when_used_as_spec(spec_ranked_for)]
    pub fn find_suitable_ranked_status_for_beatmap(status: BeatmapStatus) -> (r: ScoreStatus)
        ensures
            r == ScoreStatus::spec_ranked_for(status),
    {
        match status {
            BeatmapStatus::Ranked | BeatmapStatus::Approved => ScoreStatus::Ranked,
            BeatmapStatus::Qualified | BeatmapStatus::Loved => ScoreStatus::Loved,
            _ => ScoreStatus::Unranked,
        }
    }
}

/// Status of a beatmap. Codes: -2 unknown, -1 not submitted, 0 pending,
/// 1 needs update, 2 ranked, 3 approved, 4 qualified, 5 loved.
#[derive(Debug, Clone, Copy, PartialEq, Eq, Structural)]
pub enum BeatmapStatus {
    Unknown,
    NotSubmitted,
    LatestPending,
    NeedUpdate,
    Ranked,
    Approved,
    Qualified,
    Loved,
}

impl BeatmapStatus {
    pub open spec fn spec_from_db(value: i32) -> BeatmapStatus {
        if value == -2 {
            BeatmapStatus::Unknown
        } else if value == -1 {
            BeatmapStatus::NotSubmitted
        } else if value == 0 {
            BeatmapStatus::LatestPending
        } else if value == 1 {
            BeatmapStatus::NeedUpdate
        } else if value == 2 {
            BeatmapStatus::Ranked
        } else if value == 3 {
            BeatmapStatus::Approved
        } else if value == 4 {
            BeatmapStatus::Qualified
        } else if value == 5 {
            BeatmapStatus::Loved
        } else {
            BeatmapStatus::Unknown
        }
    }

    #[verifier::when_used_as_spec(spec_from_db)]
    pub fn from_db(value: i32) -> (r: BeatmapStatus)
        ensures
            r == BeatmapStatus::spec_from_db(value),
    {
        match value {
            -2 => BeatmapStatus::Unknown,
            -1 => BeatmapStatus::NotSubmitted,
            0 => BeatmapStatus::LatestPending,
            1 => BeatmapStatus::NeedUpdate,
            2 => BeatmapStatus::Ranked,
            3 => BeatmapStatus::Approved,
            4 => BeatmapStatus::Qualified,
            5 => BeatmapStatus::Loved,
            _ => BeatmapStatus::Unknown,
        }
    }

    pub open spec fn spec_to_db(&self) -> i32 {
        match self {
            BeatmapStatus::Unknown => -2i32,
            BeatmapStatus::NotSubmitted => -1i32,
            BeatmapStatus::LatestPending => 0i32,
            BeatmapStatus::NeedUpdate => 1i32,
            BeatmapStatus::Ranked => 2i32,
            BeatmapStatus::Approved => 3i32,
            BeatmapStatus::Qualified => 4i32,
            BeatmapStatus::Loved => 5i32,
        }
    }

    #[verifier::when_used_as_spec(spec_to_db)]
    pub fn to_db(&self) -> (r: i32)
        ensures
            r == self.spec_to_db(),
    {
        match self {
            BeatmapStatus::Unknown => -2,
            BeatmapStatus::NotSubmitted => -1,
            BeatmapStatus::LatestPending => 0,
            BeatmapStatus::NeedUpdate => 1,
            BeatmapStatus::Ranked => 2,
            BeatmapStatus::Approved => 3,
            BeatmapStatus::Qualified => 4,
            BeatmapStatus::Loved => 5,
        }
    }
}

/// Coerce the mirror's `ranked` field to a local status, as the resolver
/// stores it: everything below ranked becomes pending, the rest shift up by
/// one code.
pub open spec fn spec_mirror_status(ranked: i64) -> i32 {
    if ranked == 1 {
        2
    } else if ranked == 2 {
        3
    } else if ranked == 3 {
        4
    } else if ranked == 4 {
        5
    } else {
        0
    }
}

pub fn mirror_status_to_local(ranked: i64) -> (r: i32)
    ensures
        r == spec_mirror_status(ranked),
{
    match ranked {
        1 => 2,
        2 => 3,
        3 => 4,
        4 => 5,
        _ => 0,
    }
}

/// Human-readable name of a beatmap status.
pub fn rank_to_str(status: &BeatmapStatus) -> (r: &'static str)
    ensures
        status is Unknown ==> r@ == "Unknown"@,
        status is NotSubmitted ==> r@ == "Unsubmitted"@,
        status is LatestPending ==> r@ == "Unranked"@,
        status is NeedUpdate ==> r@ == "Needs Update"@,
        status is Ranked ==> r@ == "Ranked"@,
        status is Approved ==> r@ == "Approved"@,
        status is Qualified ==> r@ == "Qualified"@,
        status is Loved ==> r@ == "Loved"@,
{
    match status {
        BeatmapStatus::Unknown => "Unknown",
        BeatmapStatus::NotSubmitted => "Unsubmitted",
        BeatmapStatus::LatestPending => "Unranked",
        BeatmapStatus::NeedUpdate => "Needs Update",
        BeatmapStatus::Ranked => "Ranked",
        BeatmapStatus::Approved => "Approved",
        BeatmapStatus::Qualified => "Qualified",
        BeatmapStatus::Loved => "Loved",
    }
}

/// Status-filter name used by the download listing, keyed by the client's
/// numeric ranked-status request.
pub fn ranked_status_to_string(status: u8) -> (r: &'static str)
    ensures
        status == 0 || status == 7 ==> r@ == "ranked"@,
        status == 2 ==> r@ == "pending"@,
        status == 3 ==> r@ == "qualified"@,
        status == 5 ==> r@ == "graveyard"@,
        status == 8 ==> r@ == "loved"@,
        status != 0 && status != 2 && status != 3 && status != 5 && status != 7 && status != 8
            ==> r@ == ""@,
{
    match status {
        0 => "ranked",
        2 => "pending",
        3 => "qualified",
        5 => "graveyard",
        7 => "ranked",
        8 => "loved",
        _ => "",
    }
}

/// Human-readable name of a client action id.
pub fn status_to_string(status: u8) -> (r: String)
    ensures
        status == 0 ==> r@ == "idle"@,
        status == 1 ==> r@ == "afk"@,
        status == 2 ==> r@ == "playing"@,
        status == 3 ==> r@ == "editing"@,
        status == 4 ==> r@ == "modding"@,
        status == 5 ==> r@ == "multiplayer"@,
        status == 6 ==> r@ == "watching"@,
        status == 7 ==> r@ == "unknown"@,
        status == 8 ==> r@ == "testing"@,
        status == 9 ==> r@ == "submitting"@,
        status == 10 ==> r@ == "paused"@,
        status == 11 ==> r@ == "lobby"@,
        status == 12 ==> r@ == "multiplaying"@,
        status == 13 ==> r@ == "osu!direct"@,
        status > 13 ==> r@ == "unkown"@,
{
    let s = match status {
        0 => "idle",
        1 => "afk",
        2 => "playing",
        3 => "editing",
        4 => "modding",
        5 => "multiplayer",
        6 => "watching",
        7 => "unknown",
        8 => "testing",
        9 => "submitting",
        10 => "paused",
        11 => "lobby",
        12 => "multiplaying",
        13 => "osu!direct",
        _ => "unkown",
    };
    String::from_str(s)
}

/// Which column a score listing is ordered by.
#[derive(Debug, Clone, Copy, PartialEq, Eq, Structural)]
pub enum SortMode {
    Performance,
    Score,
}

impl SortMode {
    pub fn to_sql(&self) -> (r: &'static str)
        ensures
            self is Performance ==> r@ == "performance"@,
            self is Score ==> r@ == "totalScore"@,
    {
        match self {
            SortMode::Performance => "performance",
            SortMode::Score => "totalScore",
        }
    }
}

} // verus!
