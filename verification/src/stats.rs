//! Per-mode user statistics and their recomputation from the best scores.
//!
//! The weighted performance of a user is the sum of the best plays'
//! performance, one per beatmap, ordered from strongest to weakest, the
//! i-th weighted by 0.95^i. Weights are carried in millionths and
//! performance in hundredths of a point, so the whole computation is exact
//! integer arithmetic; the final figure is rounded to whole points.

use vstd::prelude::*;

verus! {

/// A user's per-mode statistics row. Accuracy is stored in basis points
/// (hundredths of a percent, 0 to 10000); performance in whole points.
#[derive(Debug)]
pub struct UserDbStats {
    pub id: Option<i32>,
    pub ranked_score: i64,
    pub total_score: i64,
    pub accuracy: u32,
    pub playcount: i32,
    pub performance: u64,
    pub max_combo: i32,
}

impl Clone for UserDbStats {
    fn clone(&self) -> (r: UserDbStats)
        ensures
            r == *self,
    {
        UserDbStats {
            id: self.id,
            ranked_score: self.ranked_score,
            total_score: self.total_score,
            accuracy: self.accuracy,
            playcount: self.playcount,
            performance: self.performance,
            max_combo: self.max_combo,
        }
    }
}

impl UserDbStats {
    /// A stats row is well formed when its accuracy is a valid fraction.
    pub open spec fn wf(&self) -> bool {
        self.accuracy <= 10000
    }

    pub fn default() -> (r: UserDbStats)
        ensures
            r.wf(),
            r.ranked_score == 0 && r.total_score == 0 && r.accuracy == 0 && r.playcount == 0
                && r.performance == 0 && r.max_combo == 0 && r.id is None,
    {
        UserDbStats {
            id: None,
            ranked_score: 0,
            total_score: 0,
            accuracy: 0,
            playcount: 0,
            performance: 0,
            max_combo: 0,
        }
    }
}

/// The per-mode statistics rows, one per (user, mode): the store keeps
/// that uniqueness as its invariant, and an upsert can never create a
/// second row for a pair.
pub struct StatsStore {
    pub rows: Vec<(i32, u8, UserDbStats)>,
}

/// Index of the row of a (user, mode) pair, scanning from `k`.
pub open spec fn spec_find_stats_from(rows: Seq<(i32, u8, UserDbStats)>, k: int, user_id: i32, mode: u8) -> Option<int>
    decreases rows.len() - k,
{
    if k < 0 || k >= rows.len() {
        None
    } else if rows[k].0 == user_id && rows[k].1 == mode {
        Some(k)
    } else {
        spec_find_stats_from(rows, k + 1, user_id, mode)
    }
}

impl StatsStore {
    /// At most one row per (user, mode).
    pub open spec fn wf(&self) -> bool {
        &&& forall|i: int, j: int|
            0 <= i < j < self.rows@.len() ==> !((#[trigger] self.rows@[i]).0 == (
            #[trigger] self.rows@[j]).0 && self.rows@[i].1 == self.rows@[j].1)
        &&& forall|i: int| 0 <= i < self.rows@.len() ==> (#[trigger] self.rows@[i]).2.wf()
    }

    pub fn new() -> (r: StatsStore)
        ensures
            r.wf(),
            r.rows@.len() == 0,
    {
        StatsStore { rows: Vec::new() }
    }

    fn find(&self, user_id: i32, mode: u8) -> (r: Option<usize>)
        ensures
            r matches Some(i) ==> i < self.rows@.len() && self.rows@[i as int].0 == user_id
                && self.rows@[i as int].1 == mode && spec_find_stats_from(
                self.rows@,
                0,
                user_id,
                mode,
            ) == Some(i as int),
            r is None ==> spec_find_stats_from(self.rows@, 0, user_id, mode) is None && forall|
                i: int,
            |
                0 <= i < self.rows@.len() ==> !((#[trigger] self.rows@[i]).0 == user_id
                    && self.rows@[i].1 == mode),
    {
        let mut i: usize = 0;
        while i < self.rows.len()
            invariant
                i <= self.rows@.len(),
                forall|j: int|
                    0 <= j < i ==> !((#[trigger] self.rows@[j]).0 == user_id && self.rows@[j].1
                        == mode),
                spec_find_stats_from(self.rows@, 0, user_id, mode) == spec_find_stats_from(
                    self.rows@,
                    i as int,
                    user_id,
                    mode,
                ),
            decreases self.rows@.len() - i,
        {
            if self.rows[i].0 == user_id && self.rows[i].1 == mode {
                return Some(i);
            }
            i = i + 1;
        }
        None
    }

    /// Write a pair's row: the pair holds exactly the new figures
    /// afterwards, every other row is untouched, and the pair still has
    /// exactly one row.
    pub fn upsert(&mut self, user_id: i32, mode: u8, stats: UserDbStats)
        requires
            old(self).wf(),
            stats.wf(),
        ensures
            final(self).wf(),
            spec_find_stats_from(old(self).rows@, 0, user_id, mode) is None ==> final(self).rows@
                == old(self).rows@.push((user_id, mode, stats)),
            spec_find_stats_from(old(self).rows@, 0, user_id, mode) matches Some(i)
                ==> final(self).rows@ == old(self).rows@.update(i, (user_id, mode, stats)),
    {
        match self.find(user_id, mode) {
            None => {
                self.rows.push((user_id, mode, stats));
                proof {
                    assert forall|i: int, j: int|
                        0 <= i < j < self.rows@.len() implies !((#[trigger] self.rows@[i]).0 == (
                    #[trigger] self.rows@[j]).0 && self.rows@[i].1 == self.rows@[j].1) by {
                        if j == self.rows@.len() - 1 {
                            assert(self.rows@[i] == old(self).rows@[i]);
                        }
                    }
                }
            },
            Some(i) => {
                let mut row = self.rows.remove(i);
                row.2 = stats;
                self.rows.insert(i, row);
                proof {
                    assert(self.rows@ =~= old(self).rows@.update(i as int, (user_id, mode, stats)));
                }
            },
        }
    }
}

/// One best play, as the recomputation consumes it.
#[derive(Debug)]
pub struct BestEntry {
    pub checksum: String,
    /// Performance in hundredths of a point.
    pub performance: u64,
    /// Accuracy in basis points.
    pub accuracy_bp: u32,
}

impl Clone for BestEntry {
    fn clone(&self) -> (r: BestEntry)
        ensures
            r == *self,
    {
        BestEntry {
            checksum: self.checksum.clone(),
            performance: self.performance,
            accuracy_bp: self.accuracy_bp,
        }
    }
}

/// Insert an entry into a descending list, after any equal entries.
pub open spec fn spec_insert_desc(s: Seq<BestEntry>, x: BestEntry) -> Seq<BestEntry>
    decreases s.len(),
{
    if s.len() == 0 {
        seq![x]
    } else if x.performance > s[0].performance {
        seq![x] + s
    } else {
        seq![s[0]] + spec_insert_desc(s.drop_first(), x)
    }
}

/// Sort entries by performance, descending, by repeated insertion.
pub open spec fn spec_sort_desc(s: Seq<BestEntry>) -> Seq<BestEntry>
    decreases s.len(),
{
    if s.len() == 0 {
        Seq::empty()
    } else {
        spec_insert_desc(spec_sort_desc(s.drop_last()), s.last())
    }
}

/// Keep the first entry for every checksum, dropping later repeats. On a
/// descending list this keeps the strongest play per beatmap.
pub open spec fn spec_dedup_by_checksum(s: Seq<BestEntry>, seen: Set<Seq<char>>) -> Seq<BestEntry>
    decreases s.len(),
{
    if s.len() == 0 {
        Seq::empty()
    } else if seen.contains(s[0].checksum@) {
        spec_dedup_by_checksum(s.drop_first(), seen)
    } else {
        seq![s[0]] + spec_dedup_by_checksum(s.drop_first(), seen.insert(s[0].checksum@))
    }
}

/// The ranking weight of position `k`, in millionths: 0.95^k in fixed
/// point, rounding down at every step.
pub open spec fn weight_ppm(k: nat) -> nat
    decreases k,
{
    if k == 0 {
        1000000
    } else {
        weight_ppm((k - 1) as nat) * 95 / 100
    }
}

pub proof fn lemma_weight_ppm_bound(k: nat)
    ensures
        weight_ppm(k) <= 1000000,
    decreases k,
{
    if k > 0 {
        lemma_weight_ppm_bound((k - 1) as nat);
        assert(weight_ppm(k) == weight_ppm((k - 1) as nat) * 95 / 100);
        assert(weight_ppm((k - 1) as nat) * 95 / 100 <= 1000000) by (nonlinear_arith)
            requires
                weight_ppm((k - 1) as nat) <= 1000000,
        ;
    }
}

/// Weighted sum of performances (hundredths) against the weights from
/// position `k` on, in hundredth-millionths.
pub open spec fn spec_weighted_total(s: Seq<BestEntry>, k: nat) -> int
    decreases s.len(),
{
    if s.len() == 0 {
        0
    } else {
        s[0].performance * weight_ppm(k) + spec_weighted_total(s.drop_first(), k + 1)
    }
}

/// Sum of the accuracies, in basis points.
pub open spec fn spec_acc_total(s: Seq<BestEntry>) -> int
    decreases s.len(),
{
    if s.len() == 0 {
        0
    } else {
        s[0].accuracy_bp + spec_acc_total(s.drop_first())
    }
}

/// The canonical ranking list of a set of best plays: sorted descending,
/// one entry per beatmap.
pub open spec fn spec_ranked_list(s: Seq<BestEntry>) -> Seq<BestEntry> {
    spec_dedup_by_checksum(spec_sort_desc(s), Set::empty())
}

/// The recomputed figures of a set of best plays: whole-point weighted
/// performance (rounded to nearest) and mean accuracy in basis points
/// (rounded down; zero for no plays).
pub open spec fn spec_recompute(s: Seq<BestEntry>) -> (u64, u32) {
    let d = spec_ranked_list(s);
    let pp = ((spec_weighted_total(d, 0) + 50000000) / 100000000) as u64;
    let acc = if d.len() == 0 {
        0u32
    } else {
        (spec_acc_total(d) / d.len() as int) as u32
    };
    (pp, acc)
}

/// Everything about a play that recomputation may see is bounded: at most
/// a thousand points per play in hundredths. Machine limits force a bound;
/// this one is far above the per-mode caps.
pub open spec fn entries_bounded(s: Seq<BestEntry>) -> bool {
    &&& s.len() <= 100000
    &&& forall|i: int|
        0 <= i < s.len() ==> (#[trigger] s[i].performance) <= 10000000 && s[i].accuracy_bp <= 10000
}

fn insert_desc(list: &mut Vec<BestEntry>, x: BestEntry)
    ensures
        final(list)@ == spec_insert_desc(old(list)@, x),
    decreases old(list)@.len(),
{
    if list.len() == 0 {
        list.push(x);
        assert(list@ =~= spec_insert_desc(old(list)@, x));
    } else if x.performance > list[0].performance {
        list.insert(0, x);
        assert(list@ =~= seq![x] + old(list)@);
    } else {
        let head = list.remove(0);
        insert_desc(list, x);
        list.insert(0, head);
        assert(list@ =~= seq![old(list)@[0]] + spec_insert_desc(old(list)@.drop_first(), x));
    }
}

/// Sort best plays strongest first.
pub fn sort_entries_desc(input: &Vec<BestEntry>) -> (r: Vec<BestEntry>)
    ensures
        r@ == spec_sort_desc(input@),
{
    let mut out: Vec<BestEntry> = Vec::new();
    let mut i: usize = 0;
    while i < input.len()
        invariant
            i <= input@.len(),
            out@ =~= spec_sort_desc(input@.subrange(0, i as int)),
        decreases input@.len() - i,
    {
        proof {
            assert(input@.subrange(0, i + 1).drop_last() =~= input@.subrange(0, i as int));
            assert(input@.subrange(0, i + 1).last() == input@[i as int]);
        }
        insert_desc(&mut out, input[i].clone());
        i = i + 1;
    }
    proof {
        assert(input@.subrange(0, input@.len() as int) =~= input@);
    }
    out
}

/// Drop all but the first entry of every checksum.
pub fn dedup_entries(input: &Vec<BestEntry>) -> (r: Vec<BestEntry>)
    ensures
        r@ == spec_dedup_by_checksum(input@, Set::empty()),
{
    let mut out: Vec<BestEntry> = Vec::new();
    let mut seen: Vec<String> = Vec::new();
    let ghost mut seen_set: Set<Seq<char>> = Set::empty();
    let mut i: usize = 0;
    proof {
        assert(input@.skip(0) =~= input@);
        assert(out@ + spec_dedup_by_checksum(input@, Set::empty()) =~= spec_dedup_by_checksum(
            input@,
            Set::empty(),
        ));
    }
    while i < input.len()
        invariant
            i <= input@.len(),
            out@ + spec_dedup_by_checksum(input@.skip(i as int), seen_set)
                =~= spec_dedup_by_checksum(input@, Set::empty()),
            forall|c: Seq<char>|
                seen_set.contains(c) <==> exists|j: int|
                    0 <= j < seen@.len() && (#[trigger] seen@[j])@ == c,
        decreases input@.len() - i,
    {
        let ghost pre_out = out@;
        let ghost pre_seen = seen@;
        let ghost pre_set = seen_set;
        proof {
            assert(input@.skip(i as int).drop_first() =~= input@.skip(i + 1));
            assert(input@.skip(i as int)[0] == input@[i as int]);
        }
        let mut found = false;
        let mut j: usize = 0;
        while j < seen.len()
            invariant
                i < input@.len(),
                j <= seen@.len(),
                found <==> exists|k: int|
                    0 <= k < j && (#[trigger] seen@[k])@ == input@[i as int].checksum@,
            decreases seen@.len() - j,
        {
            if seen[j].eq(&input[i].checksum) {
                found = true;
            }
            j = j + 1;
        }
        proof {
            assert(found <==> seen_set.contains(input@[i as int].checksum@));
        }
        if !found {
            out.push(input[i].clone());
            seen.push(input[i].checksum.clone());
            proof {
                let c0 = input@[i as int].checksum@;
                seen_set = pre_set.insert(c0);
                assert(seen@ =~= pre_seen.push(input@[i as int].checksum));
                assert forall|c: Seq<char>| seen_set.contains(c) implies exists|k: int|
                    0 <= k < seen@.len() && (#[trigger] seen@[k])@ == c by {
                    if c == c0 {
                        assert(seen@[pre_seen.len() as int]@ == c);
                    } else {
                        let k = choose|k: int|
                            0 <= k < pre_seen.len() && (#[trigger] pre_seen[k])@ == c;
                        assert(seen@[k]@ == c);
                    }
                }
                assert forall|k: int| 0 <= k < seen@.len() implies seen_set.contains(
                    #[trigger] seen@[k]@,
                ) by {
                    if k < pre_seen.len() {
                        assert(pre_seen[k]@ == seen@[k]@);
                        assert(pre_set.contains(seen@[k]@));
                    } else {
                        assert(seen@[k]@ == c0);
                    }
                }
                assert(spec_dedup_by_checksum(input@.skip(i as int), pre_set) =~= seq![
                    input@[i as int],
                ] + spec_dedup_by_checksum(input@.skip(i + 1), seen_set));
                assert(out@ + spec_dedup_by_checksum(input@.skip(i + 1), seen_set)
                    =~= spec_dedup_by_checksum(input@, Set::empty()));
            }
        } else {
            proof {
                assert(spec_dedup_by_checksum(input@.skip(i as int), seen_set)
                    =~= spec_dedup_by_checksum(input@.skip(i + 1), seen_set));
            }
        }
        i = i + 1;
    }
    proof {
        assert(input@.skip(input@.len() as int) =~= Seq::<BestEntry>::empty());
        assert(out@ + Seq::<BestEntry>::empty() =~= out@);
    }
    out
}

proof fn lemma_weighted_total_bound(s: Seq<BestEntry>, k: nat)
    requires
        forall|i: int| 0 <= i < s.len() ==> (#[trigger] s[i].performance) <= 10000000,
    ensures
        0 <= spec_weighted_total(s, k) <= s.len() * 10000000000000,
    decreases s.len(),
{
    if s.len() > 0 {
        lemma_weight_ppm_bound(k);
        lemma_weighted_total_bound(s.drop_first(), k + 1);
        assert(s[0].performance * weight_ppm(k) <= 10000000000000) by (nonlinear_arith)
            requires
                s[0].performance <= 10000000,
                weight_ppm(k) <= 1000000,
        ;
    }
}

proof fn lemma_acc_total_bound(s: Seq<BestEntry>)
    requires
        forall|i: int| 0 <= i < s.len() ==> (#[trigger] s[i].accuracy_bp) <= 10000,
    ensures
        0 <= spec_acc_total(s) <= s.len() * 10000,
    decreases s.len(),
{
    if s.len() > 0 {
        lemma_acc_total_bound(s.drop_first());
    }
}

proof fn lemma_sorted_preserves_bounds(s: Seq<BestEntry>)
    requires
        entries_bounded(s),
    ensures
        spec_sort_desc(s).len() == s.len(),
        forall|i: int|
            0 <= i < spec_sort_desc(s).len() ==> (#[trigger] spec_sort_desc(s)[i].performance)
                <= 10000000 && spec_sort_desc(s)[i].accuracy_bp <= 10000,
    decreases s.len(),
{
    if s.len() > 0 {
        assert(forall|i: int|
            0 <= i < s.drop_last().len() ==> (#[trigger] s.drop_last()[i].performance) <= 10000000
                && s.drop_last()[i].accuracy_bp <= 10000);
        lemma_sorted_preserves_bounds(s.drop_last());
        lemma_insert_preserves_bounds(spec_sort_desc(s.drop_last()), s.last());
    }
}

proof fn lemma_insert_preserves_bounds(s: Seq<BestEntry>, x: BestEntry)
    requires
        forall|i: int|
            0 <= i < s.len() ==> (#[trigger] s[i].performance) <= 10000000 && s[i].accuracy_bp
                <= 10000,
        x.performance <= 10000000,
        x.accuracy_bp <= 10000,
    ensures
        spec_insert_desc(s, x).len() == s.len() + 1,
        forall|i: int|
            0 <= i < spec_insert_desc(s, x).len() ==> (#[trigger] spec_insert_desc(
                s,
                x,
            )[i].performance) <= 10000000 && spec_insert_desc(s, x)[i].accuracy_bp <= 10000,
    decreases s.len(),
{
    if s.len() > 0 && !(x.performance > s[0].performance) {
        assert(forall|i: int|
            0 <= i < s.drop_first().len() ==> (#[trigger] s.drop_first()[i].performance)
                <= 10000000 && s.drop_first()[i].accuracy_bp <= 10000);
        lemma_insert_preserves_bounds(s.drop_first(), x);
    }
}

proof fn lemma_dedup_preserves_bounds(s: Seq<BestEntry>, seen: Set<Seq<char>>)
    requires
        forall|i: int|
            0 <= i < s.len() ==> (#[trigger] s[i].performance) <= 10000000 && s[i].accuracy_bp
                <= 10000,
    ensures
        spec_dedup_by_checksum(s, seen).len() <= s.len(),
        forall|i: int|
            0 <= i < spec_dedup_by_checksum(s, seen).len() ==> (#[trigger] spec_dedup_by_checksum(
                s,
                seen,
            )[i].performance) <= 10000000 && spec_dedup_by_checksum(s, seen)[i].accuracy_bp
                <= 10000,
    decreases s.len(),
{
    if s.len() > 0 {
        assert(forall|i: int|
            0 <= i < s.drop_first().len() ==> (#[trigger] s.drop_first()[i].performance)
                <= 10000000 && s.drop_first()[i].accuracy_bp <= 10000);
        lemma_dedup_preserves_bounds(s.drop_first(), seen);
        lemma_dedup_preserves_bounds(s.drop_first(), seen.insert(s[0].checksum@));
    }
}

/// Recompute a user's weighted performance and mean accuracy from the best
/// plays, exactly as the canonical ranking list defines them.
pub fn recompute_stats(entries: &Vec<BestEntry>) -> (r: (u64, u32))
    requires
        entries_bounded(entries@),
    ensures
        r == spec_recompute(entries@),
        r.1 <= 10000,
{
    let sorted = sort_entries_desc(entries);
    proof {
        lemma_sorted_preserves_bounds(entries@);
    }
    let d = dedup_entries(&sorted);
    proof {
        lemma_dedup_preserves_bounds(sorted@, Set::empty());
    }
    let ghost dd = spec_ranked_list(entries@);
    let mut sum: u64 = 0;
    let mut acc_sum: u64 = 0;
    let mut weight: u64 = 1000000;
    let mut i: usize = 0;
    proof {
        assert(d@.skip(0) =~= d@);
    }
    while i < d.len()
        invariant
            i <= d@.len(),
            d@ == dd,
            d@.len() <= entries@.len() <= 100000,
            forall|j: int|
                0 <= j < d@.len() ==> (#[trigger] d@[j].performance) <= 10000000
                    && d@[j].accuracy_bp <= 10000,
            weight == weight_ppm(i as nat),
            sum + spec_weighted_total(d@.skip(i as int), i as nat) == spec_weighted_total(d@, 0),
            sum <= i * 10000000000000,
            acc_sum + spec_acc_total(d@.skip(i as int)) == spec_acc_total(d@),
            acc_sum <= i * 10000,
        decreases d@.len() - i,
    {
        proof {
            lemma_weight_ppm_bound(i as nat);
            assert(d@.skip(i as int).drop_first() =~= d@.skip(i + 1));
            assert(d@.skip(i as int)[0] == d@[i as int]);
            assert(d@[i as int].performance * weight <= 10000000000000) by (nonlinear_arith)
                requires
                    d@[i as int].performance <= 10000000,
                    weight <= 1000000,
            ;
            assert((i + 1) * 10000000000000 == i * 10000000000000 + 10000000000000) by (nonlinear_arith);
            assert((i + 1) * 10000 == i * 10000 + 10000) by (nonlinear_arith);
            assert(i * 10000000000000 <= 100000 * 10000000000000) by (nonlinear_arith)
                requires
                    0 <= i <= 100000,
            ;
        }
        sum = sum + d[i].performance * weight;
        acc_sum = acc_sum + d[i].accuracy_bp as u64;
        weight = weight * 95 / 100;
        i = i + 1;
    }
    proof {
        assert(d@.skip(d@.len() as int) =~= Seq::<BestEntry>::empty());
        assert(i * 10000000000000 <= 100000 * 10000000000000) by (nonlinear_arith)
            requires
                0 <= i <= 100000,
        ;
        assert(i * 10000 <= 100000 * 10000) by (nonlinear_arith)
            requires
                0 <= i <= 100000,
        ;
    }
    let pp: u64 = (sum + 50000000) / 100000000;
    let acc: u32 = if d.len() == 0 {
        0
    } else {
        proof {
            assert(acc_sum / (d.len() as u64) <= 10000) by (nonlinear_arith)
                requires
                    acc_sum <= d@.len() * 10000,
                    d@.len() > 0,
                    d.len() == d@.len(),
            ;
        }
        (acc_sum / (d.len() as u64)) as u32
    };
    (pp, acc)
}

/// Recomputation writes only what it derives from the plays, so running it
/// twice over the same plays leaves the second run with nothing to change.
pub open spec fn spec_apply_recompute(stats: UserDbStats, s: Seq<BestEntry>) -> UserDbStats {
    UserDbStats {
        performance: spec_recompute(s).0,
        accuracy: spec_recompute(s).1,
        ..stats
    }
}

/// Weighted-performance recomputation is idempotent: recomputing a state
/// that was just recomputed from the same plays changes nothing.
pub proof fn lemma_recompute_idempotent(stats: UserDbStats, s: Seq<BestEntry>)
    ensures
        spec_apply_recompute(spec_apply_recompute(stats, s), s) == spec_apply_recompute(stats, s),
{
}

/// Fold a submitted play into the per-mode aggregates: the submitted total
/// score is added (saturating at the machine limit), the play count grows
/// by one, and the max combo rises to the play's combo when it is larger.
pub open spec fn spec_apply_submission(stats: UserDbStats, total_score: u32, max_combo: u16) -> UserDbStats {
    UserDbStats {
        total_score: if stats.total_score + total_score <= i64::MAX {
            (stats.total_score + total_score) as i64
        } else {
            i64::MAX
        },
        playcount: if stats.playcount < i32::MAX {
            (stats.playcount + 1) as i32
        } else {
            stats.playcount
        },
        max_combo: if max_combo > stats.max_combo {
            max_combo as i32
        } else {
            stats.max_combo
        },
        ..stats
    }
}

/// The aggregates after a submission, honoring the failed gate: a failed
/// play leaves every aggregate exactly as it was.
pub open spec fn spec_apply_submission_outcome(
    stats: UserDbStats,
    failed: bool,
    total_score: u32,
    max_combo: u16,
) -> UserDbStats {
    if failed {
        stats
    } else {
        spec_apply_submission(stats, total_score, max_combo)
    }
}

/// Fold a submission into the aggregates; failed plays change nothing.
pub fn apply_submission_outcome(
    stats: &UserDbStats,
    failed: bool,
    total_score: u32,
    max_combo: u16,
) -> (r: UserDbStats)
    ensures
        r == spec_apply_submission_outcome(*stats, failed, total_score, max_combo),
        failed ==> r == *stats,
{
    if failed {
        stats.clone()
    } else {
        apply_submission(stats, total_score, max_combo)
    }
}

pub fn apply_submission(stats: &UserDbStats, total_score: u32, max_combo: u16) -> (r: UserDbStats)
    ensures
        r == spec_apply_submission(*stats, total_score, max_combo),
{
    let total = if stats.total_score <= i64::MAX - total_score as i64 {
        stats.total_score + total_score as i64
    } else {
        i64::MAX
    };
    let playcount = if stats.playcount < i32::MAX {
        stats.playcount + 1
    } else {
        stats.playcount
    };
    let combo = if max_combo as i32 > stats.max_combo {
        max_combo as i32
    } else {
        stats.max_combo
    };
    UserDbStats {
        id: stats.id,
        ranked_score: stats.ranked_score,
        total_score: total,
        accuracy: stats.accuracy,
        playcount,
        performance: stats.performance,
        max_combo: combo,
    }
}

} // verus!
