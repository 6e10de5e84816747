//! Score submission: the decrypted record a client uploads, its parse, and
//! the rule that classifies the play against the prior personal best.
//!
//! The decrypted plaintext is a colon-delimited record of sixteen fields in
//! fixed order: beatmap checksum, player name, client hash, the six hit
//! counts, total score, max combo, the perfect flag, the rank letter, mods,
//! the pass flag and the play mode. The parser's contract states exactly
//! which byte strings it accepts and what each field of the result is.

use vstd::prelude::*;
use vstd::utf8::{decode_utf8, valid_utf8};
use vstd::string::StringSliceAdditionalSpecFns;
use crate::decimal::{dec_val, is_digits, parse_u64};
use crate::status::{BeatmapStatus, ScoreStatus};

verus! {

/// Split a byte string at every colon. Splitting the empty string gives one
/// empty field, like the split it models.
pub open spec fn split_colon(b: Seq<u8>) -> Seq<Seq<u8>>
    decreases b.len(),
{
    if b.len() == 0 {
        seq![Seq::<u8>::empty()]
    } else if b[0] == 58 {
        seq![Seq::<u8>::empty()] + split_colon(b.drop_first())
    } else {
        let rest = split_colon(b.drop_first());
        seq![seq![b[0]] + rest[0]] + rest.drop_first()
    }
}

pub proof fn lemma_split_colon_len(b: Seq<u8>)
    ensures
        split_colon(b).len() >= 1,
    decreases b.len(),
{
    if b.len() > 0 {
        lemma_split_colon_len(b.drop_first());
    }
}

/// Split a record into its colon-separated fields.
pub fn split_fields(data: &Vec<u8>) -> (r: Vec<Vec<u8>>)
    ensures
        r.deep_view() == split_colon(data@),
{
    let mut acc: Vec<Vec<u8>> = Vec::new();
    acc.push(Vec::new());
    proof {
        assert(data@.skip(data@.len() as int) =~= Seq::<u8>::empty());
        assert(acc.deep_view() =~~= split_colon(data@.skip(data@.len() as int)));
    }
    let mut i: usize = data.len();
    while i > 0
        invariant
            i <= data@.len(),
            acc.deep_view() =~~= split_colon(data@.skip(i as int)),
            acc@.len() >= 1,
        decreases i,
    {
        let ghost old_acc = acc.deep_view();
        i = i - 1;
        let c = data[i];
        proof {
            assert(data@.skip(i as int).drop_first() =~= data@.skip(i + 1));
            lemma_split_colon_len(data@.skip(i + 1));
        }
        if c == 58 {
            acc.insert(0, Vec::new());
            proof {
                assert(acc.deep_view() =~~= seq![Seq::<u8>::empty()] + old_acc);
            }
        } else {
            let mut first = acc.remove(0);
            first.insert(0, c);
            acc.insert(0, first);
            proof {
                assert(acc.deep_view() =~~= seq![seq![c] + old_acc[0]] + old_acc.drop_first());
            }
        }
        proof {
            assert(acc.deep_view() =~~= split_colon(data@.skip(i as int)));
        }
    }
    proof {
        assert(data@.skip(0) =~= data@);
        assert(acc.deep_view() =~~= split_colon(data@));
    }
    acc
}

/// The byte strings "True" and "False" as the client writes its flags.
pub open spec fn true_bytes() -> Seq<u8> {
    seq![84u8, 114u8, 117u8, 101u8]
}

pub open spec fn false_bytes() -> Seq<u8> {
    seq![70u8, 97u8, 108u8, 115u8, 101u8]
}

fn bytes_eq(a: &Vec<u8>, b: &Vec<u8>) -> (r: bool)
    ensures
        r == (a@ =~= b@),
{
    if a.len() != b.len() {
        return false;
    }
    let mut i: usize = 0;
    while i < a.len()
        invariant
            i <= a@.len(),
            a@.len() == b@.len(),
            forall|j: int| 0 <= j < i ==> a@[j] == b@[j],
        decreases a@.len() - i,
    {
        if a[i] != b[i] {
            return false;
        }
        i = i + 1;
    }
    true
}

/// The decrypted submission record.
#[derive(Debug, Clone)]
pub struct ScoreDecryptedData {
    pub beatmap_md5: String,
    pub player_name: String,
    pub some_hash: String,
    pub count_300: u16,
    pub count_100: u16,
    pub count_50: u16,
    pub count_geki: u16,
    pub count_katu: u16,
    pub count_miss: u16,
    pub total_score: u32,
    pub max_combo: u16,
    pub perfect: bool,
    pub rank_string: String,
    pub mods: i32,
    pub failed: bool,
    pub playmode: u8,
}

/// When a decrypted byte string is a well-formed record: at least sixteen
/// fields, text fields valid UTF-8, numeric fields all digits within range.
pub open spec fn spec_record_ok(f: Seq<Seq<u8>>) -> bool {
    &&& f.len() >= 16
    &&& valid_utf8(f[0])
    &&& valid_utf8(f[1])
    &&& valid_utf8(f[2])
    &&& valid_utf8(f[12])
    &&& is_digits(f[3]) && dec_val(f[3]) <= u16::MAX
    &&& is_digits(f[4]) && dec_val(f[4]) <= u16::MAX
    &&& is_digits(f[5]) && dec_val(f[5]) <= u16::MAX
    &&& is_digits(f[6]) && dec_val(f[6]) <= u16::MAX
    &&& is_digits(f[7]) && dec_val(f[7]) <= u16::MAX
    &&& is_digits(f[8]) && dec_val(f[8]) <= u16::MAX
    &&& is_digits(f[9]) && dec_val(f[9]) <= u32::MAX
    &&& is_digits(f[10]) && dec_val(f[10]) <= u16::MAX
    &&& is_digits(f[13]) && dec_val(f[13]) <= i32::MAX
    &&& is_digits(f[15]) && dec_val(f[15]) <= u8::MAX
}

impl ScoreDecryptedData {
    /// What each field of a parsed record is, in terms of the split input.
    pub open spec fn matches_fields(&self, f: Seq<Seq<u8>>) -> bool {
        &&& self.beatmap_md5@ == decode_utf8(f[0])
        &&& self.player_name@ == decode_utf8(f[1])
        &&& self.some_hash@ == decode_utf8(f[2])
        &&& self.count_300 == dec_val(f[3])
        &&& self.count_100 == dec_val(f[4])
        &&& self.count_50 == dec_val(f[5])
        &&& self.count_geki == dec_val(f[6])
        &&& self.count_katu == dec_val(f[7])
        &&& self.count_miss == dec_val(f[8])
        &&& self.total_score == dec_val(f[9])
        &&& self.max_combo == dec_val(f[10])
        &&& self.perfect == (f[11] =~= true_bytes())
        &&& self.rank_string@ == decode_utf8(f[12])
        &&& self.mods == dec_val(f[13])
        &&& self.failed == (f[14] =~= false_bytes())
        &&& self.playmode == dec_val(f[15])
    }

    /// Parse a decrypted record. Succeeds exactly on well-formed records and
    /// then returns their fields; the pass flag reads "False" as a failed
    /// play and the perfect flag reads "True" as a full combo.
    pub fn new(data: &Vec<u8>) -> (r: Option<ScoreDecryptedData>)
        ensures
            r is Some <==> spec_record_ok(split_colon(data@)),
            r matches Some(d) ==> d.matches_fields(split_colon(data@)),
    {
        let fields = split_fields(data);
        if fields.len() < 16 {
            return None;
        }
        proof {
            assert forall|i: int| 0 <= i < fields@.len() implies fields@[i]@ == #[trigger] split_colon(
                data@,
            )[i] by {
                assert(fields.deep_view()[i] == fields@[i].deep_view());
            }
        }
        let beatmap_md5 = match crate::decimal::bytes_to_string(&fields[0]) {
            Some(s) => s,
            None => {
                return None;
            },
        };
        let player_name = match crate::decimal::bytes_to_string(&fields[1]) {
            Some(s) => s,
            None => {
                return None;
            },
        };
        let some_hash = match crate::decimal::bytes_to_string(&fields[2]) {
            Some(s) => s,
            None => {
                return None;
            },
        };
        let rank_string = match crate::decimal::bytes_to_string(&fields[12]) {
            Some(s) => s,
            None => {
                return None;
            },
        };
        let count_300 = match parse_bounded(&fields[3], 0xffff) {
            Some(v) => v as u16,
            None => {
                return None;
            },
        };
        let count_100 = match parse_bounded(&fields[4], 0xffff) {
            Some(v) => v as u16,
            None => {
                return None;
            },
        };
        let count_50 = match parse_bounded(&fields[5], 0xffff) {
            Some(v) => v as u16,
            None => {
                return None;
            },
        };
        let count_geki = match parse_bounded(&fields[6], 0xffff) {
            Some(v) => v as u16,
            None => {
                return None;
            },
        };
        let count_katu = match parse_bounded(&fields[7], 0xffff) {
            Some(v) => v as u16,
            None => {
                return None;
            },
        };
        let count_miss = match parse_bounded(&fields[8], 0xffff) {
            Some(v) => v as u16,
            None => {
                return None;
            },
        };
        let total_score = match parse_bounded(&fields[9], 0xffff_ffff) {
            Some(v) => v as u32,
            None => {
                return None;
            },
        };
        let max_combo = match parse_bounded(&fields[10], 0xffff) {
            Some(v) => v as u16,
            None => {
                return None;
            },
        };
        let mods = match parse_bounded(&fields[13], 0x7fff_ffff) {
            Some(v) => v as i32,
            None => {
                return None;
            },
        };
        let playmode = match parse_bounded(&fields[15], 0xff) {
            Some(v) => v as u8,
            None => {
                return None;
            },
        };
        let truth = vec![84u8, 114u8, 117u8, 101u8];
        let falsity = vec![70u8, 97u8, 108u8, 115u8, 101u8];
        proof {
            assert(truth@ =~= true_bytes());
            assert(falsity@ =~= false_bytes());
        }
        let perfect = bytes_eq(&fields[11], &truth);
        let failed = bytes_eq(&fields[14], &falsity);
        Some(
            ScoreDecryptedData {
                beatmap_md5,
                player_name,
                some_hash,
                count_300,
                count_100,
                count_50,
                count_geki,
                count_katu,
                count_miss,
                total_score,
                max_combo,
                perfect,
                rank_string,
                mods,
                failed,
                playmode,
            },
        )
    }
}

/// Parse a digit field no larger than `bound`.
fn parse_bounded(b: &Vec<u8>, bound: u64) -> (r: Option<u64>)
    ensures
        r is Some <==> is_digits(b@) && dec_val(b@) <= bound,
        r matches Some(v) ==> v == dec_val(b@) && v <= bound,
{
    match parse_u64(b) {
        Some(v) => {
            if v <= bound {
                Some(v)
            } else {
                None
            }
        },
        None => None,
    }
}

/// The decryption key for a submission: a fixed prefix joined with the
/// client version field.
pub open spec fn spec_submission_key(version: Seq<u8>) -> Seq<u8> {
    "osu!-scoreburgr---------".spec_bytes() + version
}

pub fn generate_submittion_key(version: &Vec<u8>) -> (r: Vec<u8>)
    ensures
        r@ == spec_submission_key(version@),
{
    let prefix = "osu!-scoreburgr---------";
    let pb = prefix.as_bytes();
    let mut out: Vec<u8> = Vec::new();
    let mut i: usize = 0;
    while i < pb.len()
        invariant
            i <= pb@.len(),
            out@ =~= pb@.subrange(0, i as int),
        decreases pb@.len() - i,
    {
        out.push(pb[i]);
        proof {
            assert(out@ =~= pb@.subrange(0, i + 1));
        }
        i = i + 1;
    }
    proof {
        assert(pb@.subrange(0, pb@.len() as int) =~= pb@);
    }
    let mut j: usize = 0;
    while j < version.len()
        invariant
            j <= version@.len(),
            out@ =~= pb@ + version@.subrange(0, j as int),
        decreases version@.len() - j,
    {
        out.push(version[j]);
        proof {
            assert(out@ =~= pb@ + version@.subrange(0, j + 1));
        }
        j = j + 1;
    }
    proof {
        assert(version@.subrange(0, version@.len() as int) =~= version@);
    }
    out
}

/// What a submitted play becomes, and what happens to the prior best.
#[derive(Debug, Clone, Copy, PartialEq, Eq, Structural)]
pub struct SubmissionDecision {
    /// Status the new play is stored with.
    pub new_status: ScoreStatus,
    /// Status the prior best must be downgraded to first, if any.
    pub downgrade_prior_to: Option<ScoreStatus>,
}

/// Classify a submission against the prior personal best, by performance in
/// hundredths of a point:
/// - a quit or failed play is stored failed, and nothing else changes;
/// - with no prior best, the play becomes the best its map status allows;
/// - beating the prior best's performance demotes that best to its non-best
///   status and promotes the new play;
/// - anything else is stored unranked.
pub open spec fn spec_decide_submission(
    quit: bool,
    failed: bool,
    prior_pp: Option<u64>,
    new_pp: u64,
    map_status: BeatmapStatus,
) -> SubmissionDecision {
    if quit || failed {
        SubmissionDecision { new_status: ScoreStatus::Failed, downgrade_prior_to: None }
    } else if prior_pp is None {
        SubmissionDecision {
            new_status: ScoreStatus::spec_best_for(map_status),
            downgrade_prior_to: None,
        }
    } else if new_pp > prior_pp->Some_0 {
        SubmissionDecision {
            new_status: ScoreStatus::spec_best_for(map_status),
            downgrade_prior_to: Some(ScoreStatus::spec_ranked_for(map_status)),
        }
    } else {
        SubmissionDecision { new_status: ScoreStatus::Unranked, downgrade_prior_to: None }
    }
}

pub fn decide_submission(
    quit: bool,
    failed: bool,
    prior_pp: Option<u64>,
    new_pp: u64,
    map_status: BeatmapStatus,
) -> (r: SubmissionDecision)
    ensures
        r == spec_decide_submission(quit, failed, prior_pp, new_pp, map_status),
{
    if quit || failed {
        SubmissionDecision { new_status: ScoreStatus::Failed, downgrade_prior_to: None }
    } else {
        match prior_pp {
            None => SubmissionDecision {
                new_status: ScoreStatus::find_suitable_best_status_for_beatmap(map_status),
                downgrade_prior_to: None,
            },
            Some(old_pp) => {
                if new_pp > old_pp {
                    SubmissionDecision {
                        new_status: ScoreStatus::find_suitable_best_status_for_beatmap(map_status),
                        downgrade_prior_to: Some(
                            ScoreStatus::find_suitable_ranked_status_for_beatmap(map_status),
                        ),
                    }
                } else {
                    SubmissionDecision {
                        new_status: ScoreStatus::Unranked,
                        downgrade_prior_to: None,
                    }
                }
            },
        }
    }
}

/// A decision never leaves two bests behind: whenever the new play is stored
/// as a best, either there was no prior best or the decision downgrades it
/// to a non-best status first.
pub proof fn lemma_submission_preserves_single_best(
    quit: bool,
    failed: bool,
    prior_pp: Option<u64>,
    new_pp: u64,
    map_status: BeatmapStatus,
)
    ensures
        ({
            let d = spec_decide_submission(quit, failed, prior_pp, new_pp, map_status);
            (d.new_status is Best || d.new_status is LovedBest) ==> (prior_pp is None
                || (d.downgrade_prior_to matches Some(s) && !(s is Best) && !(s is LovedBest)))
        }),
{
}

/// Whether a submission without a replay file triggers the automatic
/// restriction: only completed plays must carry one.
pub fn replay_missing_restricts(failed: bool, quit: bool, replay_present: bool) -> (r: bool)
    ensures
        r == (!failed && !quit && !replay_present),
{
    !failed && !quit && !replay_present
}

/// The per-mode performance caps, in hundredths of a point. A score above
/// the cap from an unverified account triggers an automatic restriction.
pub open spec fn spec_pp_cap(play_mode: i32) -> u64 {
    if play_mode == 0 {
        72700
    } else if play_mode == 1 {
        80000
    } else if play_mode == 2 {
        230000
    } else if play_mode == 3 {
        120000
    } else if play_mode == 4 {
        180000
    } else {
        999900
    }
}

pub fn get_pp_cap(play_mode: i32) -> (r: u64)
    ensures
        r == spec_pp_cap(play_mode),
{
    match play_mode {
        0 => 72700,
        1 => 80000,
        2 => 230000,
        3 => 120000,
        4 => 180000,
        _ => 999900,
    }
}

/// Whether a play exceeds its mode's cap. Verified accounts bypass the cap.
pub fn is_cap_reached(performance: u64, play_mode: i32, verified: bool) -> (r: bool)
    ensures
        r == (!verified && performance > spec_pp_cap(play_mode)),
{
    if verified {
        false
    } else {
        performance > get_pp_cap(play_mode)
    }
}

} // verus!

verus! {

/// Cipher and IV shapes the cipher accepts: at least one whole 32-byte
/// block of ciphertext, and at least a block of IV.
pub open spec fn spec_cipher_lengths_ok(cipher: Seq<u8>, iv: Seq<u8>) -> bool {
    cipher.len() > 0 && cipher.len() % 32 == 0 && iv.len() >= 32
}

/// Decrypt and parse a submitted score. The two fields arrive as base64
/// texts; the key is derived from the client version. Succeeds exactly when
/// both texts decode, their lengths fit the cipher, the ciphertext decrypts
/// under that key, and the plaintext is a well-formed record; the result is
/// then that record.
pub fn decrypt_score_payload(osuver: &Vec<u8>, score_b64: &str, iv_b64: &str) -> (r: Option<
    ScoreDecryptedData,
>)
    ensures
        r is Some <==> ({
            let key = spec_submission_key(osuver@);
            &&& crate::crypto::b64_decode_of(score_b64@) is Some
            &&& crate::crypto::b64_decode_of(iv_b64@) is Some
            &&& spec_cipher_lengths_ok(
                crate::crypto::b64_decode_of(score_b64@)->Some_0,
                crate::crypto::b64_decode_of(iv_b64@)->Some_0,
            )
            &&& crate::crypto::rijndael_decrypt_of(
                key,
                crate::crypto::b64_decode_of(iv_b64@)->Some_0,
                crate::crypto::b64_decode_of(score_b64@)->Some_0,
            ) is Some
            &&& spec_record_ok(
                split_colon(
                    crate::crypto::rijndael_decrypt_of(
                        key,
                        crate::crypto::b64_decode_of(iv_b64@)->Some_0,
                        crate::crypto::b64_decode_of(score_b64@)->Some_0,
                    )->Some_0,
                ),
            )
        }),
        r matches Some(d) ==> d.matches_fields(
            split_colon(
                crate::crypto::rijndael_decrypt_of(
                    spec_submission_key(osuver@),
                    crate::crypto::b64_decode_of(iv_b64@)->Some_0,
                    crate::crypto::b64_decode_of(score_b64@)->Some_0,
                )->Some_0,
            ),
        ),
{
    let key = generate_submittion_key(osuver);
    let cipher = match crate::crypto::base64_decode(score_b64) {
        Some(c) => c,
        None => {
            return None;
        },
    };
    let iv = match crate::crypto::base64_decode(iv_b64) {
        Some(c) => c,
        None => {
            return None;
        },
    };
    if cipher.len() == 0 || cipher.len() % 32 != 0 || iv.len() < 32 {
        return None;
    }
    let plain = match crate::crypto::rijndael_cbc_decrypt(&key, &iv, cipher) {
        Some(p) => p,
        None => {
            return None;
        },
    };
    ScoreDecryptedData::new(&plain)
}

} // verus!
