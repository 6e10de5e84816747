//! The stored scores of one mode, with the single-best invariant: for
//! every (user, beatmap checksum, relax partition, play mode) at most one
//! row holds a best status. A submission reads the prior best, downgrades
//! it when beaten, and inserts the new row — one operation here, as the
//! storage layer must wrap it in one transaction.

use vstd::prelude::*;
use crate::status::BeatmapStatus;
use crate::submission::{decide_submission, spec_decide_submission, SubmissionDecision};

verus! {

/// One stored score, reduced to what the best-replacement rule reads.
#[derive(Debug)]
pub struct ScoreRow {
    pub user_id: i32,
    pub checksum: String,
    /// The relax partition: the mods' bit 128.
    pub relax: bool,
    pub playmode: u8,
    /// Numeric score status as stored.
    pub status: i32,
    /// Performance in hundredths of a point.
    pub performance: u64,
}

/// Two rows compete for the same best slot.
pub open spec fn same_partition(a: ScoreRow, b: ScoreRow) -> bool {
    a.user_id == b.user_id && a.checksum@ == b.checksum@ && a.relax == b.relax && a.playmode
        == b.playmode
}

/// The statuses that make a row the best of its partition.
pub open spec fn is_best_status(status: i32) -> bool {
    status == 2 || status == 4
}

/// Whether a row is the best of the given partition.
pub open spec fn spec_row_matches(
    row: ScoreRow,
    user_id: i32,
    checksum: Seq<char>,
    relax: bool,
    playmode: u8,
) -> bool {
    is_best_status(row.status) && row.user_id == user_id && row.checksum@ == checksum && row.relax
        == relax && row.playmode == playmode
}

/// Index of the partition's best row, scanning from position `k`.
pub open spec fn spec_find_best_from(
    rows: Seq<ScoreRow>,
    k: int,
    user_id: i32,
    checksum: Seq<char>,
    relax: bool,
    playmode: u8,
) -> Option<int>
    decreases rows.len() - k,
{
    if k < 0 || k >= rows.len() {
        None
    } else if spec_row_matches(rows[k], user_id, checksum, relax, playmode) {
        Some(k)
    } else {
        spec_find_best_from(rows, k + 1, user_id, checksum, relax, playmode)
    }
}

/// Index of the partition's best row, if any.
pub open spec fn spec_find_best(
    rows: Seq<ScoreRow>,
    user_id: i32,
    checksum: Seq<char>,
    relax: bool,
    playmode: u8,
) -> Option<int> {
    spec_find_best_from(rows, 0, user_id, checksum, relax, playmode)
}

/// The performance of the partition's best row, if any.
pub open spec fn spec_prior_pp(
    rows: Seq<ScoreRow>,
    user_id: i32,
    checksum: Seq<char>,
    relax: bool,
    playmode: u8,
) -> Option<u64> {
    match spec_find_best(rows, user_id, checksum, relax, playmode) {
        Some(i) => Some(rows[i].performance),
        None => None,
    }
}

/// The stored scores.
pub struct ScoreTable {
    pub rows: Vec<ScoreRow>,
}

impl ScoreTable {
    /// At most one best per partition.
    pub open spec fn wf(&self) -> bool {
        forall|i: int, j: int|
            0 <= i < j < self.rows@.len() && is_best_status((#[trigger] self.rows@[i]).status)
                && is_best_status((#[trigger] self.rows@[j]).status) ==> !same_partition(
                self.rows@[i],
                self.rows@[j],
            )
    }

    pub fn new() -> (r: ScoreTable)
        ensures
            r.wf(),
            r.rows@.len() == 0,
    {
        ScoreTable { rows: Vec::new() }
    }

    /// The best row of a partition, if one exists.
    fn find_best(&self, user_id: i32, checksum: &String, relax: bool, playmode: u8) -> (r: Option<
        usize,
    >)
        ensures
            r matches Some(i) ==> i < self.rows@.len() && is_best_status(
                self.rows@[i as int].status,
            ) && self.rows@[i as int].user_id == user_id && self.rows@[i as int].checksum@
                == checksum@ && self.rows@[i as int].relax == relax
                && self.rows@[i as int].playmode == playmode && spec_find_best(
                self.rows@,
                user_id,
                checksum@,
                relax,
                playmode,
            ) == Some(i as int),
            r is None ==> (forall|i: int|
                0 <= i < self.rows@.len() ==> !(is_best_status(
                    (#[trigger] self.rows@[i]).status,
                ) && self.rows@[i].user_id == user_id && self.rows@[i].checksum@ == checksum@
                    && self.rows@[i].relax == relax && self.rows@[i].playmode == playmode))
                && spec_find_best(self.rows@, user_id, checksum@, relax, playmode) is None,
    {
        let mut i: usize = 0;
        while i < self.rows.len()
            invariant
                i <= self.rows@.len(),
                forall|j: int|
                    0 <= j < i ==> !(is_best_status((#[trigger] self.rows@[j]).status)
                        && self.rows@[j].user_id == user_id && self.rows@[j].checksum@ == checksum@
                        && self.rows@[j].relax == relax && self.rows@[j].playmode == playmode),
                spec_find_best(self.rows@, user_id, checksum@, relax, playmode)
                    == spec_find_best_from(self.rows@, i as int, user_id, checksum@, relax, playmode),
            decreases self.rows@.len() - i,
        {
            let row = &self.rows[i];
            if (row.status == 2 || row.status == 4) && row.user_id == user_id && row.checksum.eq(
                checksum,
            ) && row.relax == relax && row.playmode == playmode {
                return Some(i);
            }
            i = i + 1;
        }
        None
    }

    /// Submit a play: classify it against the partition's prior best,
    /// downgrade exactly that best when it is beaten, and insert the new
    /// row; nothing else moves. The single-best invariant survives, and
    /// the decision is the submission rule applied to the stored prior
    /// best's performance.
    pub fn submit(
        &mut self,
        user_id: i32,
        checksum: String,
        relax: bool,
        playmode: u8,
        quit: bool,
        failed: bool,
        new_pp: u64,
        map_status: BeatmapStatus,
    ) -> (d: SubmissionDecision)
        requires
            old(self).wf(),
        ensures
            final(self).wf(),
            d == spec_decide_submission(
                quit,
                failed,
                spec_prior_pp(old(self).rows@, user_id, checksum@, relax, playmode),
                new_pp,
                map_status,
            ),
            ({
                let nr = ScoreRow {
                    user_id,
                    checksum,
                    relax,
                    playmode,
                    status: d.new_status.spec_to_db(),
                    performance: new_pp,
                };
                match d.downgrade_prior_to {
                    Some(s) => spec_find_best(
                        old(self).rows@,
                        user_id,
                        checksum@,
                        relax,
                        playmode,
                    ) matches Some(i) && final(self).rows@ == old(self).rows@.update(
                        i,
                        ScoreRow { status: s.spec_to_db(), ..old(self).rows@[i] },
                    ).push(nr),
                    None => final(self).rows@ == old(self).rows@.push(nr),
                }
            }),
            final(self).rows@.len() == old(self).rows@.len() + 1,
            (quit || failed) ==> d.new_status is Failed,
    {
        let found = self.find_best(user_id, &checksum, relax, playmode);
        let prior_pp: Option<u64> = match found {
            Some(i) => Some(self.rows[i].performance),
            None => None,
        };
        let d = decide_submission(quit, failed, prior_pp, new_pp, map_status);
        proof {
            assert(prior_pp == spec_prior_pp(self.rows@, user_id, checksum@, relax, playmode));
        }
        let ghost mid = self.rows@;
        match (found, d.downgrade_prior_to) {
            (Some(i), Some(s)) => {
                let mut row = self.rows.remove(i);
                row.status = s.to_db();
                self.rows.insert(i, row);
                proof {
                    assert(self.rows@ =~= mid.update(i as int, self.rows@[i as int]));
                    assert(!is_best_status(self.rows@[i as int].status));
                    assert(self.rows@[i as int] == (ScoreRow {
                        status: s.spec_to_db(),
                        ..mid[i as int]
                    }));
                }
            },
            _ => {},
        }
        let ghost pre_push = self.rows@;
        let new_row = ScoreRow {
            user_id,
            checksum,
            relax,
            playmode,
            status: d.new_status.to_db(),
            performance: new_pp,
        };
        proof {
            // After a downgrade, no best row of this partition remains.
            if is_best_status(d.new_status.spec_to_db()) {
                assert forall|j: int|
                    0 <= j < pre_push.len() implies !(is_best_status(
                    (#[trigger] pre_push[j]).status,
                ) && same_partition(pre_push[j], new_row)) by {
                    match found {
                        None => {
                            assert(pre_push[j] == mid[j]);
                        },
                        Some(i) => {
                            if j != i {
                                assert(pre_push[j] == mid[j]);
                                if is_best_status(mid[j].status) && same_partition(
                                    mid[j],
                                    new_row,
                                ) {
                                    // Two bests of one partition would have
                                    // stood in the old table.
                                    assert(is_best_status(mid[i as int].status));
                                    assert(same_partition(mid[i as int], mid[j]));
                                    assert(false);
                                }
                            }
                        },
                    }
                }
            }
        }
        self.rows.push(new_row);
        proof {
            assert(self.rows@ =~= pre_push.push(new_row));
            match d.downgrade_prior_to {
                Some(s) => {
                    if let Some(i) = found {
                        assert(self.rows@ =~= mid.update(
                            i as int,
                            ScoreRow { status: s.spec_to_db(), ..mid[i as int] },
                        ).push(new_row));
                    }
                },
                None => {
                    assert(self.rows@ =~= mid.push(new_row));
                },
            }
            assert forall|i: int, j: int|
                0 <= i < j < self.rows@.len() && is_best_status((#[trigger] self.rows@[i]).status)
                    && is_best_status((#[trigger] self.rows@[j]).status) implies !same_partition(
                self.rows@[i],
                self.rows@[j],
            ) by {
                if j < self.rows@.len() - 1 {
                    assert(self.rows@[i] == pre_push[i] && self.rows@[j] == pre_push[j]);
                    assert(pre_push[i] == mid[i] || !is_best_status(pre_push[i].status));
                    assert(pre_push[j] == mid[j] || !is_best_status(pre_push[j].status));
                }
            }
        }
        d
    }
}

} // verus!
