//! The chart payload a successful submission answers with: a header line
//! naming the beatmap, then two records of before/after figures — one for
//! the beatmap's own ranking, one for the overall ranking. Accuracies are
//! rendered from basis points with two decimals; everything else is
//! decimal integers.

use vstd::prelude::*;
use vstd::string::StringSliceAdditionalSpecFns;
use vstd::utf8::encode_utf8;
use crate::decimal::{dec2_bytes, dec_bytes, dec_bytes_signed, put_dec2, put_dec_i64, put_dec_u64};

verus! {

/// One before/after record of the chart payload.
#[derive(Debug)]
pub struct Chart {
    pub chart_id: String,
    pub chart_url: String,
    pub chart_name: String,
    pub score_id: i32,
    pub rank_before: i64,
    pub rank_after: i64,
    /// Accuracies in basis points.
    pub accuracy_before: u32,
    pub accuracy_after: u32,
    pub ranked_score_before: i64,
    pub ranked_score_after: i64,
    pub combo_before: i32,
    pub combo_after: i32,
    pub total_score_before: i64,
    pub total_score_after: i64,
    /// Performance in whole points.
    pub performance_before: u64,
    pub performance_after: u64,
}

impl Chart {
    /// The record's wire form: the keys of the protocol in fixed order,
    /// each `key:value`, joined with pipes.
    pub open spec fn enc(&self) -> Seq<u8> {
        "chartId:".spec_bytes() + encode_utf8(self.chart_id@) + "|chartUrl:".spec_bytes()
            + encode_utf8(self.chart_url@) + "|chartName:".spec_bytes() + encode_utf8(
            self.chart_name@,
        ) + "|rankBefore:".spec_bytes() + dec_bytes_signed(self.rank_before as int)
            + "|rankAfter:".spec_bytes() + dec_bytes_signed(self.rank_after as int)
            + "|maxComboBefore:".spec_bytes() + dec_bytes_signed(self.combo_before as int)
            + "|maxComboAfter:".spec_bytes() + dec_bytes_signed(self.combo_after as int)
            + "|accuracyBefore:".spec_bytes() + dec2_bytes(self.accuracy_before as nat)
            + "|accuracyAfter:".spec_bytes() + dec2_bytes(self.accuracy_after as nat)
            + "|rankedScoreBefore:".spec_bytes() + dec_bytes_signed(self.ranked_score_before as int)
            + "|rankedScoreAfter:".spec_bytes() + dec_bytes_signed(self.ranked_score_after as int)
            + "|totalScoreBefore:".spec_bytes() + dec_bytes_signed(self.total_score_before as int)
            + "|totalScoreAfter:".spec_bytes() + dec_bytes_signed(self.total_score_after as int)
            + "|ppBefore:".spec_bytes() + dec_bytes(self.performance_before as nat)
            + "|ppAfter:".spec_bytes() + dec_bytes(self.performance_after as nat)
            + "|achievements-new:|onlineScoreId:".spec_bytes() + dec_bytes_signed(
            self.score_id as int,
        )
    }

    /// Render the record.
    #[verifier::rlimit(100)]
    pub fn to_bytes(&self) -> (r: Vec<u8>)
        ensures
            r@ == self.enc(),
    {
        let mut out: Vec<u8> = Vec::new();
        put_lit(&mut out, "chartId:");
        put_text(&mut out, &self.chart_id);
        put_lit(&mut out, "|chartUrl:");
        put_text(&mut out, &self.chart_url);
        put_lit(&mut out, "|chartName:");
        put_text(&mut out, &self.chart_name);
        put_lit(&mut out, "|rankBefore:");
        put_dec_i64(&mut out, self.rank_before);
        put_lit(&mut out, "|rankAfter:");
        put_dec_i64(&mut out, self.rank_after);
        put_lit(&mut out, "|maxComboBefore:");
        put_dec_i64(&mut out, self.combo_before as i64);
        put_lit(&mut out, "|maxComboAfter:");
        put_dec_i64(&mut out, self.combo_after as i64);
        put_lit(&mut out, "|accuracyBefore:");
        put_dec2(&mut out, self.accuracy_before);
        put_lit(&mut out, "|accuracyAfter:");
        put_dec2(&mut out, self.accuracy_after);
        put_lit(&mut out, "|rankedScoreBefore:");
        put_dec_i64(&mut out, self.ranked_score_before);
        put_lit(&mut out, "|rankedScoreAfter:");
        put_dec_i64(&mut out, self.ranked_score_after);
        put_lit(&mut out, "|totalScoreBefore:");
        put_dec_i64(&mut out, self.total_score_before);
        put_lit(&mut out, "|totalScoreAfter:");
        put_dec_i64(&mut out, self.total_score_after);
        put_lit(&mut out, "|ppBefore:");
        put_dec_u64(&mut out, self.performance_before);
        put_lit(&mut out, "|ppAfter:");
        put_dec_u64(&mut out, self.performance_after);
        put_lit(&mut out, "|achievements-new:|onlineScoreId:");
        put_dec_i64(&mut out, self.score_id as i64);
        proof {
            assert(out@ =~= self.enc());
        }
        out
    }
}

/// The whole chart payload: the beatmap header line, a blank line, and the
/// two records separated by one newline.
pub open spec fn spec_chart_payload(
    beatmap_id: i32,
    parent_id: i32,
    beatmap_chart: Chart,
    overall: Chart,
) -> Seq<u8> {
    "beatmapId:".spec_bytes() + dec_bytes_signed(beatmap_id as int) + "|beatmapSetId:".spec_bytes()
        + dec_bytes_signed(parent_id as int)
        + "|beatmapPlaycount:0|beatmapPasscount:0|approvedDate:\n\n".spec_bytes()
        + beatmap_chart.enc() + seq![10u8] + overall.enc()
}

/// Assemble the submission response payload.
pub fn build_chart_payload(
    beatmap_id: i32,
    parent_id: i32,
    beatmap_chart: &Chart,
    overall: &Chart,
) -> (r: Vec<u8>)
    ensures
        r@ == spec_chart_payload(beatmap_id, parent_id, *beatmap_chart, *overall),
{
    let mut out: Vec<u8> = Vec::new();
    put_lit(&mut out, "beatmapId:");
    put_dec_i64(&mut out, beatmap_id as i64);
    put_lit(&mut out, "|beatmapSetId:");
    put_dec_i64(&mut out, parent_id as i64);
    put_lit(&mut out, "|beatmapPlaycount:0|beatmapPasscount:0|approvedDate:\n\n");
    let first = beatmap_chart.to_bytes();
    append(&mut out, &first);
    out.push(10);
    let second = overall.to_bytes();
    append(&mut out, &second);
    proof {
        assert(out@ =~= spec_chart_payload(beatmap_id, parent_id, *beatmap_chart, *overall));
    }
    out
}

/// Append the UTF-8 bytes of a string literal.
fn put_lit(out: &mut Vec<u8>, s: &str)
    ensures
        final(out)@ == old(out)@ + s.spec_bytes(),
{
    let b = s.as_bytes();
    let mut i: usize = 0;
    while i < b.len()
        invariant
            i <= b@.len(),
            out@ =~= old(out)@ + b@.subrange(0, i as int),
        decreases b@.len() - i,
    {
        out.push(b[i]);
        proof {
            assert(out@ =~= old(out)@ + b@.subrange(0, i + 1));
        }
        i = i + 1;
    }
    proof {
        assert(b@.subrange(0, b@.len() as int) =~= b@);
    }
}

/// Append the UTF-8 bytes of a text field.
fn put_text(out: &mut Vec<u8>, s: &String)
    ensures
        final(out)@ == old(out)@ + encode_utf8(s@),
{
    put_lit(out, s.as_str());
}

fn append(out: &mut Vec<u8>, b: &Vec<u8>)
    ensures
        final(out)@ == old(out)@ + b@,
{
    let mut i: usize = 0;
    while i < b.len()
        invariant
            i <= b@.len(),
            out@ =~= old(out)@ + b@.subrange(0, i as int),
        decreases b@.len() - i,
    {
        out.push(b[i]);
        proof {
            assert(out@ =~= old(out)@ + b@.subrange(0, i + 1));
        }
        i = i + 1;
    }
    proof {
        assert(b@.subrange(0, b@.len() as int) =~= b@);
    }
}

} // verus!
