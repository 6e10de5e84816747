//! Leaderboard ordering and the ranking sorted sets. Rows order by
//! performance on the Relax partition and by total score elsewhere, with
//! the earlier submission winning ties either way; restricted users never
//! enter the ranking sets and never appear in filtered output.

use vstd::prelude::*;
use vstd::string::StringSliceAdditionalSpecFns;
use vstd::utf8::encode_utf8;
use crate::score::Score;

verus! {

/// Whether `a` ranks strictly before `b`: the sort key descending, the
/// submission time ascending on ties.
pub open spec fn spec_ranks_before(a: Score, b: Score, relax: bool) -> bool {
    if relax {
        a.performance > b.performance || (a.performance == b.performance && a.submitted_at
            < b.submitted_at)
    } else {
        a.total_score > b.total_score || (a.total_score == b.total_score && a.submitted_at
            < b.submitted_at)
    }
}

pub fn ranks_before(a: &Score, b: &Score, relax: bool) -> (r: bool)
    ensures
        r == spec_ranks_before(*a, *b, relax),
{
    if relax {
        a.performance > b.performance || (a.performance == b.performance && a.submitted_at
            < b.submitted_at)
    } else {
        a.total_score > b.total_score || (a.total_score == b.total_score && a.submitted_at
            < b.submitted_at)
    }
}

/// The tie-break makes the order deterministic: two rows that differ in
/// their sort key or their submission time rank one way or the other, never
/// both and never neither.
pub proof fn lemma_ordering_deterministic(a: Score, b: Score, relax: bool)
    requires
        relax ==> (a.performance != b.performance || a.submitted_at != b.submitted_at),
        !relax ==> (a.total_score != b.total_score || a.submitted_at != b.submitted_at),
    ensures
        spec_ranks_before(a, b, relax) <==> !spec_ranks_before(b, a, relax),
{
}

/// The order is transitive.
pub proof fn lemma_ordering_transitive(a: Score, b: Score, c: Score, relax: bool)
    requires
        spec_ranks_before(a, b, relax),
        spec_ranks_before(b, c, relax),
    ensures
        spec_ranks_before(a, c, relax),
{
}

/// One row of a leaderboard: the play and its owner's public fields.
#[derive(Debug)]
pub struct LeaderboardRow {
    pub score: Score,
    pub user_id: i32,
    pub username: String,
    pub permissions: i32,
    pub flags: i32,
}

impl Clone for LeaderboardRow {
    fn clone(&self) -> (r: LeaderboardRow)
        ensures
            r == *self,
    {
        LeaderboardRow {
            score: self.score.clone(),
            user_id: self.user_id,
            username: self.username.clone(),
            permissions: self.permissions,
            flags: self.flags,
        }
    }
}

/// Rows shown on a leaderboard: the owner must carry no restriction bit at
/// all. This is the query filter (`permissions & 8 = 0`), which also hides
/// accounts still pending verification.
pub open spec fn spec_row_visible(r: LeaderboardRow) -> bool {
    r.permissions & 8 == 0
}

/// The subsequence of rows whose owners are not restricted, in order.
pub open spec fn spec_visible_rows(rows: Seq<LeaderboardRow>) -> Seq<LeaderboardRow>
    decreases rows.len(),
{
    if rows.len() == 0 {
        Seq::empty()
    } else if spec_row_visible(rows[0]) {
        seq![rows[0]] + spec_visible_rows(rows.drop_first())
    } else {
        spec_visible_rows(rows.drop_first())
    }
}

/// Keep exactly the rows from unrestricted users; order is preserved.
pub fn filter_restricted(rows: Vec<LeaderboardRow>) -> (r: Vec<LeaderboardRow>)
    ensures
        r@ == spec_visible_rows(rows@),
        forall|i: int| 0 <= i < r@.len() ==> spec_row_visible(#[trigger] r@[i]),
{
    let mut out: Vec<LeaderboardRow> = Vec::new();
    let mut i: usize = 0;
    proof {
        assert(rows@.skip(0) =~= rows@);
    }
    while i < rows.len()
        invariant
            i <= rows@.len(),
            out@ + spec_visible_rows(rows@.skip(i as int)) =~= spec_visible_rows(rows@),
            forall|j: int| 0 <= j < out@.len() ==> spec_row_visible(#[trigger] out@[j]),
        decreases rows@.len() - i,
    {
        proof {
            assert(rows@.skip(i as int).drop_first() =~= rows@.skip(i + 1));
            assert(rows@.skip(i as int)[0] == rows@[i as int]);
        }
        let visible = (rows[i].permissions & 8) == 0;
        if visible {
            let row = rows[i].clone();
            out.push(row);
        }
        proof {
            assert(out@ + spec_visible_rows(rows@.skip(i + 1)) =~= spec_visible_rows(rows@));
        }
        i = i + 1;
    }
    proof {
        assert(rows@.skip(rows@.len() as int) =~= Seq::<LeaderboardRow>::empty());
        assert(out@ =~= spec_visible_rows(rows@));
    }
    out
}

/// Index of the first entry of a user, scanning from position `k`.
pub open spec fn spec_find_user_from(
    entries: Seq<crate::api::RedisRankingsEntry>,
    k: int,
    user_id: i32,
) -> Option<int>
    decreases entries.len() - k,
{
    if k < 0 || k >= entries.len() {
        None
    } else if entries[k].user_id == user_id {
        Some(k)
    } else {
        spec_find_user_from(entries, k + 1, user_id)
    }
}

/// Index of a user's entry, if any.
pub open spec fn spec_find_user(entries: Seq<crate::api::RedisRankingsEntry>, user_id: i32) -> Option<
    int,
> {
    spec_find_user_from(entries, 0, user_id)
}

/// How many entries hold a strictly greater score.
pub open spec fn spec_count_greater(entries: Seq<crate::api::RedisRankingsEntry>, pp: u64) -> int
    decreases entries.len(),
{
    if entries.len() == 0 {
        0
    } else {
        (if entries[0].performance > pp {
            1int
        } else {
            0
        }) + spec_count_greater(entries.drop_first(), pp)
    }
}

/// A ranking sorted set, as the global and per-country leaderboards keep
/// it: one score per user.
pub struct RankingSet {
    pub entries: Vec<crate::api::RedisRankingsEntry>,
}

impl RankingSet {
    /// One entry per user.
    pub open spec fn wf(&self) -> bool {
        forall|i: int, j: int|
            0 <= i < j < self.entries@.len() ==> self.entries@[i].user_id
                != self.entries@[j].user_id
    }

    pub open spec fn spec_contains_user(&self, user_id: i32) -> bool {
        exists|i: int|
            0 <= i < self.entries@.len() && (#[trigger] self.entries@[i]).user_id == user_id
    }

    pub fn new() -> (r: RankingSet)
        ensures
            r.wf(),
            r.entries@.len() == 0,
    {
        RankingSet { entries: Vec::new() }
    }

    fn find_user(&self, user_id: i32) -> (r: Option<usize>)
        ensures
            r matches Some(i) ==> i < self.entries@.len() && self.entries@[i as int].user_id
                == user_id && spec_find_user(self.entries@, user_id) == Some(i as int),
            r is None ==> !self.spec_contains_user(user_id) && spec_find_user(
                self.entries@,
                user_id,
            ) is None,
    {
        let mut i: usize = 0;
        while i < self.entries.len()
            invariant
                i <= self.entries@.len(),
                forall|j: int| 0 <= j < i ==> (#[trigger] self.entries@[j]).user_id != user_id,
                spec_find_user(self.entries@, user_id) == spec_find_user_from(
                    self.entries@,
                    i as int,
                    user_id,
                ),
            decreases self.entries@.len() - i,
        {
            if self.entries[i].user_id == user_id {
                return Some(i);
            }
            i = i + 1;
        }
        None
    }

    /// Remove a user from the set: the user's entry, if any, is deleted and
    /// every other entry stays exactly as it was.
    pub fn zrem(&mut self, user_id: i32)
        requires
            old(self).wf(),
        ensures
            final(self).wf(),
            !final(self).spec_contains_user(user_id),
            forall|u: i32|
                u != user_id ==> final(self).spec_contains_user(u) == old(
                    self,
                ).spec_contains_user(u),
            spec_find_user(old(self).entries@, user_id) is None ==> final(self).entries@ == old(
                self,
            ).entries@,
            spec_find_user(old(self).entries@, user_id) matches Some(i) ==> final(self).entries@
                == old(self).entries@.remove(i),
    {
        match self.find_user(user_id) {
            None => {},
            Some(i) => {
                self.entries.remove(i);
                proof {
                    let pre = old(self).entries@;
                    assert(self.entries@ =~= pre.remove(i as int));
                    assert forall|u: i32| #[trigger] old(self).spec_contains_user(u) && u != user_id
                        implies self.spec_contains_user(u) by {
                        let k = choose|k: int| 0 <= k < pre.len() && pre[k].user_id == u;
                        if k < i {
                            assert(self.entries@[k].user_id == u);
                        } else {
                            assert(self.entries@[k - 1].user_id == u);
                        }
                    }
                    assert forall|u: i32| #[trigger] self.spec_contains_user(u) implies old(
                        self,
                    ).spec_contains_user(u) by {
                        let k = choose|k: int|
                            0 <= k < self.entries@.len() && self.entries@[k].user_id == u;
                        if k < i {
                            assert(pre[k].user_id == u);
                        } else {
                            assert(pre[k + 1].user_id == u);
                        }
                    }
                    if self.spec_contains_user(user_id) {
                        let k = choose|k: int|
                            0 <= k < self.entries@.len() && self.entries@[k].user_id == user_id;
                        if k < i {
                            assert(pre[k].user_id == user_id);
                        } else {
                            assert(pre[k + 1].user_id == user_id);
                        }
                    }
                }
            },
        }
    }

    /// Add or refresh a user's score: the user's entry carries exactly the
    /// given score afterwards, and every other entry stays as it was.
    pub fn zadd(&mut self, user_id: i32, performance: u64)
        requires
            old(self).wf(),
        ensures
            final(self).wf(),
            final(self).spec_contains_user(user_id),
            forall|u: i32|
                u != user_id ==> final(self).spec_contains_user(u) == old(
                    self,
                ).spec_contains_user(u),
            spec_find_user(old(self).entries@, user_id) is None ==> final(self).entries@ == old(
                self,
            ).entries@.push(crate::api::RedisRankingsEntry { user_id, performance }),
            spec_find_user(old(self).entries@, user_id) matches Some(i) ==> final(self).entries@
                == old(self).entries@.update(
                i,
                crate::api::RedisRankingsEntry { user_id, performance },
            ),
    {
        let entry = crate::api::RedisRankingsEntry { user_id, performance };
        match self.find_user(user_id) {
            None => {
                self.entries.push(entry);
                proof {
                    let pre = old(self).entries@;
                    assert(self.entries@ =~= pre.push(entry));
                    assert(self.entries@[pre.len() as int].user_id == user_id);
                    assert forall|u: i32| #[trigger] self.spec_contains_user(u) && u != user_id
                        implies old(self).spec_contains_user(u) by {
                        let k = choose|k: int|
                            0 <= k < self.entries@.len() && self.entries@[k].user_id == u;
                        assert(pre[k].user_id == u);
                    }
                    assert forall|u: i32| #[trigger] old(self).spec_contains_user(u) implies self.spec_contains_user(
                        u,
                    ) by {
                        let k = choose|k: int| 0 <= k < pre.len() && pre[k].user_id == u;
                        assert(self.entries@[k].user_id == u);
                    }
                }
            },
            Some(i) => {
                let mut e = self.entries.remove(i);
                e.performance = performance;
                self.entries.insert(i, e);
                proof {
                    assert(self.entries@ =~= old(self).entries@.update(
                        i as int,
                        self.entries@[i as int],
                    ));
                    assert(self.entries@[i as int].user_id == user_id);
                    assert forall|u: i32| #[trigger] self.spec_contains_user(u) implies old(
                        self,
                    ).spec_contains_user(u) by {
                        let k = choose|k: int|
                            0 <= k < self.entries@.len() && self.entries@[k].user_id == u;
                        assert(old(self).entries@[k].user_id == u);
                    }
                    assert forall|u: i32| #[trigger] old(self).spec_contains_user(u) implies self.spec_contains_user(
                        u,
                    ) by {
                        let k = choose|k: int|
                            0 <= k < old(self).entries@.len() && old(self).entries@[k].user_id
                                == u;
                        assert(self.entries@[k].user_id == u);
                    }
                }
            },
        }
    }

    /// Fold a recomputation result into the set: a restricted user is
    /// removed, anyone else's entry is set to exactly the new score; no
    /// other entry moves.
    pub fn apply_update(&mut self, user_id: i32, performance: u64, restricted: bool)
        requires
            old(self).wf(),
        ensures
            final(self).wf(),
            restricted ==> !final(self).spec_contains_user(user_id),
            !restricted ==> final(self).spec_contains_user(user_id),
            forall|u: i32|
                u != user_id ==> final(self).spec_contains_user(u) == old(
                    self,
                ).spec_contains_user(u),
            restricted ==> (spec_find_user(old(self).entries@, user_id) is None
                ==> final(self).entries@ == old(self).entries@),
            restricted ==> (spec_find_user(old(self).entries@, user_id) matches Some(i)
                ==> final(self).entries@ == old(self).entries@.remove(i)),
            !restricted ==> (spec_find_user(old(self).entries@, user_id) is None
                ==> final(self).entries@ == old(self).entries@.push(
                crate::api::RedisRankingsEntry { user_id, performance },
            )),
            !restricted ==> (spec_find_user(old(self).entries@, user_id) matches Some(i)
                ==> final(self).entries@ == old(self).entries@.update(
                i,
                crate::api::RedisRankingsEntry { user_id, performance },
            )),
    {
        if restricted {
            self.zrem(user_id);
        } else {
            self.zadd(user_id, performance);
        }
    }

    /// The 1-based rank of a user: one more than the number of strictly
    /// better scores in the set.
    pub fn zrevrank(&self, user_id: i32) -> (r: Option<usize>)
        requires
            self.entries@.len() < usize::MAX,
        ensures
            r is Some <==> self.spec_contains_user(user_id),
            r matches Some(n) ==> (spec_find_user(self.entries@, user_id) matches Some(i) && n == 1
                + spec_count_greater(self.entries@, self.entries@[i].performance)),
    {
        match self.find_user(user_id) {
            None => None,
            Some(idx) => {
                let my_pp = self.entries[idx].performance;
                let mut better: usize = 0;
                let mut i: usize = 0;
                proof {
                    assert(self.entries@.skip(0) =~= self.entries@);
                }
                while i < self.entries.len()
                    invariant
                        i <= self.entries@.len() < usize::MAX,
                        better <= i,
                        better + spec_count_greater(self.entries@.skip(i as int), my_pp)
                            == spec_count_greater(self.entries@, my_pp),
                    decreases self.entries@.len() - i,
                {
                    proof {
                        assert(self.entries@.skip(i as int).drop_first() =~= self.entries@.skip(
                            i + 1,
                        ));
                        assert(self.entries@.skip(i as int)[0] == self.entries@[i as int]);
                    }
                    if self.entries[i].performance > my_pp {
                        better = better + 1;
                    }
                    i = i + 1;
                }
                Some(better + 1)
            },
        }
    }
}

/// Updates that go through the recomputation rule keep every restricted
/// user out of the set: if nobody restricted is in the set and an update
/// arrives whose restriction flag is truthful, nobody restricted is in the
/// set afterwards either.
pub proof fn lemma_no_restricted_in_rankings(
    pre: RankingSet,
    post: RankingSet,
    user_id: i32,
    restricted: spec_fn(i32) -> bool,
)
    requires
        forall|u: i32| restricted(u) ==> !pre.spec_contains_user(u),
        restricted(user_id) ==> !post.spec_contains_user(user_id),
        forall|u: i32|
            u != user_id ==> post.spec_contains_user(u) == pre.spec_contains_user(u),
    ensures
        forall|u: i32| restricted(u) ==> !post.spec_contains_user(u),
{
}

} // verus!

verus! {

/// The displayed score of a row: rounded whole performance points on the
/// Relax partition (the mods' bit 128), the raw total score elsewhere.
pub open spec fn spec_display_score(s: Score) -> int {
    if s.mods & 128 == 128 {
        (s.performance + 50) as int / 100
    } else {
        s.total_score as int
    }
}

/// One row of the scores response: sixteen pipe-separated fields — score
/// id, username, displayed score, combo, the hit counts, the perfect flag,
/// mods, user id, rank, submission epoch and a trailing one.
pub open spec fn spec_score_row(row: LeaderboardRow, rank: int) -> Seq<u8> {
    crate::decimal::dec_bytes_signed(row.score.id as int) + seq![124u8] + encode_utf8(
        row.username@,
    ) + seq![124u8] + crate::decimal::dec_bytes_signed(spec_display_score(row.score)) + seq![
        124u8,
    ] + crate::decimal::dec_bytes_signed(row.score.max_combo as int) + seq![124u8]
        + crate::decimal::dec_bytes(row.score.count_50 as nat) + seq![124u8]
        + crate::decimal::dec_bytes(row.score.count_100 as nat) + seq![124u8]
        + crate::decimal::dec_bytes(row.score.count_300 as nat) + seq![124u8]
        + crate::decimal::dec_bytes(row.score.count_miss as nat) + seq![124u8]
        + crate::decimal::dec_bytes(row.score.count_katu as nat) + seq![124u8]
        + crate::decimal::dec_bytes(row.score.count_geki as nat) + seq![124u8] + (if row.score.is_perfect {
        crate::submission::true_bytes()
    } else {
        crate::submission::false_bytes()
    }) + seq![124u8] + crate::decimal::dec_bytes_signed(row.score.mods as int) + seq![124u8]
        + crate::decimal::dec_bytes_signed(row.user_id as int) + seq![124u8]
        + crate::decimal::dec_bytes_signed(rank) + seq![124u8] + crate::decimal::dec_bytes_signed(
        row.score.submitted_at as int,
    ) + seq![124u8, 49u8]
}

/// Render one leaderboard row for the scores response.
#[verifier::rlimit(100)]
pub fn score_row_bytes(row: &LeaderboardRow, rank: i64) -> (r: Vec<u8>)
    requires
        row.score.performance <= 0x7fff_ffff_ffff,
    ensures
        r@ == spec_score_row(*row, rank as int),
{
    let mut out: Vec<u8> = Vec::new();
    crate::decimal::put_dec_i64(&mut out, row.score.id as i64);
    out.push(124);
    let name_bytes = row.username.as_str().as_bytes();
    let mut i: usize = 0;
    let ghost pre = out@;
    while i < name_bytes.len()
        invariant
            i <= name_bytes@.len(),
            out@ =~= pre + name_bytes@.subrange(0, i as int),
        decreases name_bytes@.len() - i,
    {
        out.push(name_bytes[i]);
        proof {
            assert(out@ =~= pre + name_bytes@.subrange(0, i + 1));
        }
        i = i + 1;
    }
    proof {
        assert(name_bytes@.subrange(0, name_bytes@.len() as int) =~= name_bytes@);
    }
    out.push(124);
    let display: i64 = if row.score.mods & 128 == 128 {
        (((row.score.performance + 50) / 100) as i64)
    } else {
        row.score.total_score
    };
    crate::decimal::put_dec_i64(&mut out, display);
    out.push(124);
    crate::decimal::put_dec_i64(&mut out, row.score.max_combo as i64);
    out.push(124);
    crate::decimal::put_dec_u64(&mut out, row.score.count_50 as u64);
    out.push(124);
    crate::decimal::put_dec_u64(&mut out, row.score.count_100 as u64);
    out.push(124);
    crate::decimal::put_dec_u64(&mut out, row.score.count_300 as u64);
    out.push(124);
    crate::decimal::put_dec_u64(&mut out, row.score.count_miss as u64);
    out.push(124);
    crate::decimal::put_dec_u64(&mut out, row.score.count_katu as u64);
    out.push(124);
    crate::decimal::put_dec_u64(&mut out, row.score.count_geki as u64);
    out.push(124);
    if row.score.is_perfect {
        out.push(84);
        out.push(114);
        out.push(117);
        out.push(101);
    } else {
        out.push(70);
        out.push(97);
        out.push(108);
        out.push(115);
        out.push(101);
    }
    out.push(124);
    crate::decimal::put_dec_i64(&mut out, row.score.mods as i64);
    out.push(124);
    crate::decimal::put_dec_i64(&mut out, row.user_id as i64);
    out.push(124);
    crate::decimal::put_dec_i64(&mut out, rank);
    out.push(124);
    crate::decimal::put_dec_i64(&mut out, row.score.submitted_at);
    out.push(124);
    out.push(49);
    proof {
        assert(out@ =~= spec_score_row(*row, rank as int));
    }
    out
}

} // verus!

verus! {

/// The leaderboard rows of the scores response, each its own line, dense
/// ranks counted from `rank`.
pub open spec fn spec_rows_enc(rows: Seq<LeaderboardRow>, rank: int) -> Seq<u8>
    decreases rows.len(),
{
    if rows.len() == 0 {
        Seq::empty()
    } else {
        spec_score_row(rows[0], rank) + seq![10u8] + spec_rows_enc(rows.drop_first(), rank + 1)
    }
}

/// The scores response of §6: the beatmap header lines, the row count, the
/// personal-best line (blank when there is none), and one line per row.
/// Maps not yet ranked show an empty leaderboard.
pub open spec fn spec_scores_response(
    status: i32,
    beatmap_id: i32,
    parent_id: i32,
    artist: Seq<char>,
    title: Seq<char>,
    best: Option<(LeaderboardRow, i64)>,
    rows: Seq<LeaderboardRow>,
) -> Seq<u8> {
    let shown = if status <= 0 {
        Seq::<LeaderboardRow>::empty()
    } else {
        rows
    };
    crate::decimal::dec_bytes_signed(status as int) + "|false|".spec_bytes()
        + crate::decimal::dec_bytes_signed(beatmap_id as int) + "|".spec_bytes()
        + crate::decimal::dec_bytes_signed(parent_id as int) + "|0\n0\n".spec_bytes()
        + encode_utf8(artist) + " - ".spec_bytes() + encode_utf8(title) + seq![10u8]
        + crate::decimal::dec_bytes(shown.len() as nat) + seq![10u8] + (match best {
        Some((row, rank)) => spec_score_row(row, rank as int),
        None => Seq::<u8>::empty(),
    }) + seq![10u8] + spec_rows_enc(shown, 1)
}

/// Assemble the scores response.
#[verifier::rlimit(100)]
pub fn scores_response_bytes(
    status: i32,
    beatmap_id: i32,
    parent_id: i32,
    artist: &String,
    title: &String,
    best: &Option<(LeaderboardRow, i64)>,
    rows: &Vec<LeaderboardRow>,
) -> (r: Vec<u8>)
    requires
        best matches Some((row, _)) ==> row.score.performance <= 0x7fff_ffff_ffff,
        forall|i: int|
            0 <= i < rows@.len() ==> (#[trigger] rows@[i]).score.performance <= 0x7fff_ffff_ffff,
        rows@.len() <= 0x7fff_ffff_ffff_ffff,
    ensures
        r@ == spec_scores_response(
            status,
            beatmap_id,
            parent_id,
            artist@,
            title@,
            *best,
            rows@,
        ),
{
    let mut out: Vec<u8> = Vec::new();
    crate::decimal::put_dec_i64(&mut out, status as i64);
    put_lit_bytes(&mut out, "|false|");
    crate::decimal::put_dec_i64(&mut out, beatmap_id as i64);
    put_lit_bytes(&mut out, "|");
    crate::decimal::put_dec_i64(&mut out, parent_id as i64);
    put_lit_bytes(&mut out, "|0\n0\n");
    put_lit_bytes(&mut out, artist.as_str());
    put_lit_bytes(&mut out, " - ");
    put_lit_bytes(&mut out, title.as_str());
    out.push(10);
    let count: u64 = if status <= 0 {
        0
    } else {
        rows.len() as u64
    };
    crate::decimal::put_dec_u64(&mut out, count);
    out.push(10);
    match best {
        Some((row, rank)) => {
            let line = score_row_bytes(row, *rank);
            append_bytes_to(&mut out, &line);
        },
        None => {},
    }
    out.push(10);
    let ghost header = out@;
    if status > 0 {
        let mut k: usize = 0;
        proof {
            assert(rows@.skip(0) =~= rows@);
            assert(out@ + spec_rows_enc(rows@, 1) =~= header + spec_rows_enc(rows@, 1));
        }
        while k < rows.len()
            invariant
                k <= rows@.len(),
                forall|i: int|
                    0 <= i < rows@.len() ==> (#[trigger] rows@[i]).score.performance
                        <= 0x7fff_ffff_ffff,
                rows@.len() <= 0x7fff_ffff_ffff_ffff,
                out@ + spec_rows_enc(rows@.skip(k as int), k + 1) =~= header + spec_rows_enc(
                    rows@,
                    1,
                ),
            decreases rows@.len() - k,
        {
            proof {
                assert(rows@.skip(k as int).drop_first() =~= rows@.skip(k + 1));
                assert(rows@.skip(k as int)[0] == rows@[k as int]);
            }
            let line = score_row_bytes(&rows[k], (k as i64) + 1);
            append_bytes_to(&mut out, &line);
            out.push(10);
            k = k + 1;
        }
        proof {
            assert(rows@.skip(rows@.len() as int) =~= Seq::<LeaderboardRow>::empty());
            assert(out@ =~= header + spec_rows_enc(rows@, 1));
            assert(out@ =~= spec_scores_response(
                status,
                beatmap_id,
                parent_id,
                artist@,
                title@,
                *best,
                rows@,
            ));
        }
    } else {
        proof {
            assert(out@ =~= spec_scores_response(
                status,
                beatmap_id,
                parent_id,
                artist@,
                title@,
                *best,
                rows@,
            ));
        }
    }
    out
}

/// Index of a user's row, scanning from `k`.
pub open spec fn spec_find_row_from(rows: Seq<LeaderboardRow>, k: int, user_id: i32) -> Option<int>
    decreases rows.len() - k,
{
    if k < 0 || k >= rows.len() {
        None
    } else if rows[k].user_id == user_id {
        Some(k)
    } else {
        spec_find_row_from(rows, k + 1, user_id)
    }
}

/// The user's row in an ordered leaderboard, with its dense 1-based rank:
/// the row's position in the list.
pub fn user_best_with_rank(rows: &Vec<LeaderboardRow>, user_id: i32) -> (r: Option<(
    LeaderboardRow,
    i64,
)>)
    requires
        rows@.len() <= 0x7fff_ffff_ffff_ffff,
    ensures
        r is None <==> spec_find_row_from(rows@, 0, user_id) is None,
        r matches Some((row, rank)) ==> (spec_find_row_from(rows@, 0, user_id) matches Some(i)
            && row == rows@[i] && rank == i + 1),
{
    let mut i: usize = 0;
    while i < rows.len()
        invariant
            i <= rows@.len() <= 0x7fff_ffff_ffff_ffff,
            spec_find_row_from(rows@, 0, user_id) == spec_find_row_from(rows@, i as int, user_id),
        decreases rows@.len() - i,
    {
        if rows[i].user_id == user_id {
            proof {
                assert(spec_find_row_from(rows@, i as int, user_id) == Some(i as int));
            }
            return Some((rows[i].clone(), (i as i64) + 1));
        }
        i = i + 1;
    }
    None
}

/// The client's leaderboard request is honored only at protocol version 4.
pub fn leaderboard_version_ok(vv: i32) -> (r: bool)
    ensures
        r == (vv == 4),
{
    vv == 4
}

fn put_lit_bytes(out: &mut Vec<u8>, s: &str)
    ensures
        final(out)@ == old(out)@ + s.spec_bytes(),
{
    let b = s.as_bytes();
    let mut i: usize = 0;
    while i < b.len()
        invariant
            i <= b@.len(),
            out@ =~= old(out)@ + b@.subrange(0, i as int),
        decreases b@.len() - i,
    {
        out.push(b[i]);
        proof {
            assert(out@ =~= old(out)@ + b@.subrange(0, i + 1));
        }
        i = i + 1;
    }
    proof {
        assert(b@.subrange(0, b@.len() as int) =~= b@);
    }
}

fn append_bytes_to(out: &mut Vec<u8>, b: &Vec<u8>)
    ensures
        final(out)@ == old(out)@ + b@,
{
    let mut i: usize = 0;
    while i < b.len()
        invariant
            i <= b@.len(),
            out@ =~= old(out)@ + b@.subrange(0, i as int),
        decreases b@.len() - i,
    {
        out.push(b[i]);
        proof {
            assert(out@ =~= old(out)@ + b@.subrange(0, i + 1));
        }
        i = i + 1;
    }
    proof {
        assert(b@.subrange(0, b@.len() as int) =~= b@);
    }
}

} // verus!

verus! {

/// No inversion under the ranking order: no later row ranks strictly
/// before an earlier one.
pub open spec fn spec_sorted_rows(s: Seq<LeaderboardRow>, relax: bool) -> bool {
    forall|i: int, j: int|
        0 <= i < j < s.len() ==> !spec_ranks_before((#[trigger] s[j]).score, (#[trigger] s[i]).score, relax)
}

/// Insert a row into a ranked list, before the first row it outranks.
pub open spec fn spec_insert_row(s: Seq<LeaderboardRow>, x: LeaderboardRow, relax: bool) -> Seq<
    LeaderboardRow,
>
    decreases s.len(),
{
    if s.len() == 0 {
        seq![x]
    } else if spec_ranks_before(x.score, s[0].score, relax) {
        seq![x] + s
    } else {
        seq![s[0]] + spec_insert_row(s.drop_first(), x, relax)
    }
}

/// Rank a list of rows by repeated insertion: the deterministic order of
/// the tie-broken comparator.
pub open spec fn spec_sort_rows(s: Seq<LeaderboardRow>, relax: bool) -> Seq<LeaderboardRow>
    decreases s.len(),
{
    if s.len() == 0 {
        Seq::empty()
    } else {
        spec_insert_row(spec_sort_rows(s.drop_last(), relax), s.last(), relax)
    }
}

/// Every element of an insertion is the inserted row or one of the old
/// ones.
proof fn lemma_insert_row_elems(s: Seq<LeaderboardRow>, x: LeaderboardRow, relax: bool)
    ensures
        spec_insert_row(s, x, relax).len() == s.len() + 1,
        forall|k: int|
            0 <= k < s.len() + 1 ==> (#[trigger] spec_insert_row(s, x, relax)[k] == x || exists|
                m: int,
            | 0 <= m < s.len() && s[m] == spec_insert_row(s, x, relax)[k]),
    decreases s.len(),
{
    if s.len() == 0 {
    } else if spec_ranks_before(x.score, s[0].score, relax) {
        assert forall|k: int|
            0 <= k < s.len() + 1 implies (#[trigger] spec_insert_row(s, x, relax)[k] == x || exists|
            m: int,
        | 0 <= m < s.len() && s[m] == spec_insert_row(s, x, relax)[k]) by {
            if k > 0 {
                assert(s[k - 1] == spec_insert_row(s, x, relax)[k]);
            }
        }
    } else {
        lemma_insert_row_elems(s.drop_first(), x, relax);
        assert forall|k: int|
            0 <= k < s.len() + 1 implies (#[trigger] spec_insert_row(s, x, relax)[k] == x || exists|
            m: int,
        | 0 <= m < s.len() && s[m] == spec_insert_row(s, x, relax)[k]) by {
            if k == 0 {
                assert(s[0] == spec_insert_row(s, x, relax)[0]);
            } else {
                let inner = spec_insert_row(s.drop_first(), x, relax);
                assert(spec_insert_row(s, x, relax)[k] == inner[k - 1]);
                if inner[k - 1] != x {
                    let m = choose|m: int|
                        0 <= m < s.drop_first().len() && s.drop_first()[m] == inner[k - 1];
                    assert(s[m + 1] == inner[k - 1]);
                }
            }
        }
    }
}

/// Insertion keeps a ranked list ranked.
proof fn lemma_insert_row_sorted(s: Seq<LeaderboardRow>, x: LeaderboardRow, relax: bool)
    requires
        spec_sorted_rows(s, relax),
    ensures
        spec_sorted_rows(spec_insert_row(s, x, relax), relax),
    decreases s.len(),
{
    if s.len() == 0 {
    } else if spec_ranks_before(x.score, s[0].score, relax) {
        let out = spec_insert_row(s, x, relax);
        assert forall|i: int, j: int|
            0 <= i < j < out.len() implies !spec_ranks_before(
            (#[trigger] out[j]).score,
            (#[trigger] out[i]).score,
            relax,
        ) by {
            if i == 0 {
                assert(out[j] == s[j - 1]);
                if spec_ranks_before(s[j - 1].score, x.score, relax) {
                    lemma_ordering_transitive(s[j - 1].score, x.score, s[0].score, relax);
                    if j - 1 > 0 {
                        assert(!spec_ranks_before(s[j - 1].score, s[0].score, relax));
                    }
                    assert(false);
                }
            } else {
                assert(out[i] == s[i - 1] && out[j] == s[j - 1]);
            }
        }
    } else {
        let rest = s.drop_first();
        assert forall|i: int, j: int|
            0 <= i < j < rest.len() implies !spec_ranks_before(
            (#[trigger] rest[j]).score,
            (#[trigger] rest[i]).score,
            relax,
        ) by {
            assert(rest[i] == s[i + 1] && rest[j] == s[j + 1]);
        }
        lemma_insert_row_sorted(rest, x, relax);
        lemma_insert_row_elems(rest, x, relax);
        let inner = spec_insert_row(rest, x, relax);
        let out = spec_insert_row(s, x, relax);
        assert forall|i: int, j: int|
            0 <= i < j < out.len() implies !spec_ranks_before(
            (#[trigger] out[j]).score,
            (#[trigger] out[i]).score,
            relax,
        ) by {
            if i == 0 {
                assert(out[j] == inner[j - 1]);
                if inner[j - 1] == x {
                    assert(!spec_ranks_before(x.score, s[0].score, relax));
                } else {
                    let m = choose|m: int| 0 <= m < rest.len() && rest[m] == inner[j - 1];
                    assert(rest[m] == s[m + 1]);
                    assert(!spec_ranks_before(s[m + 1].score, s[0].score, relax));
                }
            } else {
                assert(out[i] == inner[i - 1] && out[j] == inner[j - 1]);
            }
        }
    }
}

fn insert_row(list: &mut Vec<LeaderboardRow>, x: LeaderboardRow, relax: bool)
    ensures
        final(list)@ == spec_insert_row(old(list)@, x, relax),
    decreases old(list)@.len(),
{
    if list.len() == 0 {
        list.push(x);
        assert(list@ =~= spec_insert_row(old(list)@, x, relax));
    } else if ranks_before(&x.score, &list[0].score, relax) {
        list.insert(0, x);
        assert(list@ =~= seq![x] + old(list)@);
    } else {
        let head = list.remove(0);
        insert_row(list, x, relax);
        list.insert(0, head);
        assert(list@ =~= seq![old(list)@[0]] + spec_insert_row(old(list)@.drop_first(), x, relax));
    }
}

/// Order leaderboard rows by the mode's comparator: the deterministic
/// ranking of the tie-broken order, and the result carries no inversion.
pub fn sort_leaderboard(rows: &Vec<LeaderboardRow>, relax: bool) -> (r: Vec<LeaderboardRow>)
    ensures
        r@ == spec_sort_rows(rows@, relax),
        spec_sorted_rows(r@, relax),
{
    let mut out: Vec<LeaderboardRow> = Vec::new();
    let mut i: usize = 0;
    while i < rows.len()
        invariant
            i <= rows@.len(),
            out@ =~= spec_sort_rows(rows@.subrange(0, i as int), relax),
            spec_sorted_rows(out@, relax),
        decreases rows@.len() - i,
    {
        proof {
            assert(rows@.subrange(0, i + 1).drop_last() =~= rows@.subrange(0, i as int));
            assert(rows@.subrange(0, i + 1).last() == rows@[i as int]);
            lemma_insert_row_sorted(out@, rows@[i as int], relax);
        }
        insert_row(&mut out, rows[i].clone(), relax);
        i = i + 1;
    }
    proof {
        assert(rows@.subrange(0, rows@.len() as int) =~= rows@);
    }
    out
}

} // verus!
