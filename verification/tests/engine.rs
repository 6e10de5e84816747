use bancho_core::client::{ClientData, HWID};
use bancho_core::decimal;
use bancho_core::leaderboard::RankingSet;
use bancho_core::level;
use bancho_core::modes::OsuMode;
use bancho_core::mods;
use bancho_core::score::Score;
use bancho_core::stats::{self, BestEntry};
use bancho_core::status::{BeatmapStatus, ScoreStatus};
use bancho_core::submission::{self, ScoreDecryptedData};
use bancho_core::tokens;
use bancho_core::user::{is_restricted, to_safe, User};
use base64::Engine;

fn score(mode: u8, n300: u16, n100: u16, n50: u16, miss: u16, mods: i32) -> Score {
    Score {
        id: 1,
        max_combo: 100,
        count_50: n50,
        count_100: n100,
        count_300: n300,
        count_miss: miss,
        count_geki: 0,
        count_katu: 0,
        total_score: 800_000,
        is_perfect: false,
        status: 2,
        submitted_at: 1_700_000_000,
        playmode: mode,
        performance: 10_000,
        mods,
        beatmap_checksum: String::from("abc"),
    }
}

#[test]
fn effective_mode_routes_relax() {
    assert_eq!(OsuMode::effective(0, 128), OsuMode::Relax);
    assert_eq!(OsuMode::effective(1, 128), OsuMode::Taiko);
    assert_eq!(OsuMode::effective(3, 0), OsuMode::Mania);
}

#[test]
fn grade_all_300_with_hidden_is_xh() {
    let s = score(0, 100, 0, 0, 0, 1 << 3);
    assert_eq!(s.calculate_grade(), "XH");
    let plain = score(0, 100, 0, 0, 0, 0);
    assert_eq!(plain.calculate_grade(), "X");
}

#[test]
fn grade_standard_bands() {
    // 95% 300s, no misses, no 50s: an S.
    let s = score(0, 95, 5, 0, 0, 0);
    assert_eq!(s.calculate_grade(), "S");
    let sh = score(0, 95, 5, 0, 0, 1 << 10);
    assert_eq!(sh.calculate_grade(), "SH");
    // 85% 300s with no misses: an A.
    let a = score(0, 85, 15, 0, 0, 0);
    assert_eq!(a.calculate_grade(), "A");
    // Failed plays grade F.
    let mut f = score(0, 85, 15, 0, 0, 0);
    f.status = -1;
    assert_eq!(f.calculate_grade(), "F");
}

#[test]
fn grade_depends_only_on_inputs() {
    let a = score(0, 90, 10, 0, 0, 0);
    let mut b = score(0, 90, 10, 0, 0, 0);
    b.total_score = 1;
    b.performance = 999;
    b.id = 77;
    assert_eq!(a.calculate_grade(), b.calculate_grade());
}

#[test]
fn zero_hits_accuracy_is_zero() {
    let s = score(0, 0, 0, 0, 0, 0);
    assert_eq!(s.get_total_hits(), 0);
    assert_eq!(s.calculate_accuracy(), (0, 1));
    assert_eq!(s.calculate_grade(), "D");
}

#[test]
fn accuracy_fraction_standard() {
    let s = score(0, 50, 50, 0, 0, 0);
    let (num, den) = s.calculate_accuracy();
    assert_eq!(num, 300 * 50 + 100 * 50);
    assert_eq!(den, 300 * 100);
    // 66.67% earns a C in the standard bands (>= 60% 300s fails; 50% 300s).
    assert_eq!(s.calculate_grade(), "D");
}

#[test]
fn fruits_grade_bands() {
    let s = score(2, 98, 1, 1, 0, 0);
    // catch accuracy counts all fruit equally: 100/100 here.
    assert_eq!(s.calculate_grade(), "X");
}

#[test]
fn best_status_mapping() {
    assert_eq!(
        ScoreStatus::find_suitable_best_status_for_beatmap(BeatmapStatus::Ranked),
        ScoreStatus::Best
    );
    assert_eq!(
        ScoreStatus::find_suitable_best_status_for_beatmap(BeatmapStatus::Loved),
        ScoreStatus::LovedBest
    );
    assert_eq!(
        ScoreStatus::find_suitable_ranked_status_for_beatmap(BeatmapStatus::Ranked),
        ScoreStatus::Ranked
    );
    assert_eq!(
        ScoreStatus::find_suitable_best_status_for_beatmap(BeatmapStatus::LatestPending),
        ScoreStatus::Unranked
    );
    assert_eq!(ScoreStatus::Best.to_db(), 2);
    assert_eq!(BeatmapStatus::from_db(5), BeatmapStatus::Loved);
}

#[test]
fn submission_record_parses() {
    let record = b"md5md5:alice :hash:500:10:2:3:4:1:800000:450:True:S:72:True:0".to_vec();
    let d = ScoreDecryptedData::new(&record).expect("parses");
    assert_eq!(d.beatmap_md5, "md5md5");
    assert_eq!(d.player_name, "alice ");
    assert_eq!(d.count_300, 500);
    assert_eq!(d.count_miss, 1);
    assert_eq!(d.total_score, 800_000);
    assert_eq!(d.max_combo, 450);
    assert!(d.perfect);
    assert!(!d.failed);
    assert_eq!(d.mods, 72);
    assert_eq!(d.playmode, 0);
}

#[test]
fn submission_record_rejects_bad_numbers() {
    let record = b"md5:alice:h:x:10:2:3:4:1:800000:450:True:S:72:True:0".to_vec();
    assert!(ScoreDecryptedData::new(&record).is_none());
    let short = b"a:b:c".to_vec();
    assert!(ScoreDecryptedData::new(&short).is_none());
}

#[test]
fn decrypt_pipeline_round_trip() {
    let version = b"20230930".to_vec();
    let key = submission::generate_submittion_key(&version);
    assert_eq!(&key[..24], b"osu!-scoreburgr---------");
    // Real submissions carry further fields after the playmode; the
    // zero padding of the cipher lands in those ignored fields.
    let plain = b"md5:alice:h:500:10:2:3:4:1:800000:450:True:S:0:True:0:extra".to_vec();
    let iv = vec![7u8; 32];
    let cipher = simple_rijndael::impls::RijndaelCbc::<simple_rijndael::paddings::ZeroPadding>::new(
        &key, 32,
    )
    .unwrap()
    .encrypt(&iv, plain)
    .unwrap();
    let score_b64 = base64::engine::general_purpose::STANDARD.encode(&cipher);
    let iv_b64 = base64::engine::general_purpose::STANDARD.encode(&iv);
    let d = submission::decrypt_score_payload(&version, &score_b64, &iv_b64).expect("decrypts");
    assert_eq!(d.player_name, "alice");
    assert_eq!(d.count_300, 500);
    assert!(submission::decrypt_score_payload(&version, "!!!", &iv_b64).is_none());
}

#[test]
fn best_replacement_decision() {
    // An existing best at 200pp, a new play at 250pp: the old best drops to
    // Ranked and the new play becomes the best.
    let d = submission::decide_submission(false, false, Some(20_000), 25_000, BeatmapStatus::Ranked);
    assert_eq!(d.new_status, ScoreStatus::Best);
    assert_eq!(d.downgrade_prior_to, Some(ScoreStatus::Ranked));
    // A weaker play keeps the old best.
    let keep = submission::decide_submission(false, false, Some(20_000), 15_000, BeatmapStatus::Ranked);
    assert_eq!(keep.new_status, ScoreStatus::Unranked);
    assert_eq!(keep.downgrade_prior_to, None);
    // First play on a ranked map becomes the best.
    let first = submission::decide_submission(false, false, None, 100, BeatmapStatus::Ranked);
    assert_eq!(first.new_status, ScoreStatus::Best);
    // A failed play never replaces anything.
    let failed = submission::decide_submission(false, true, Some(1), 999_999, BeatmapStatus::Ranked);
    assert_eq!(failed.new_status, ScoreStatus::Failed);
    assert_eq!(failed.downgrade_prior_to, None);
}

#[test]
fn pp_cap_restricts_unverified() {
    assert!(submission::is_cap_reached(72_701, 0, false));
    assert!(!submission::is_cap_reached(72_700, 0, false));
    assert!(!submission::is_cap_reached(999_999, 0, true));
    assert_eq!(submission::get_pp_cap(2), 230_000);
}

#[test]
fn recompute_dedups_and_weights() {
    let entries = vec![
        BestEntry { checksum: String::from("a"), performance: 10_000, accuracy_bp: 10_000 },
        BestEntry { checksum: String::from("a"), performance: 20_000, accuracy_bp: 9_000 },
        BestEntry { checksum: String::from("b"), performance: 10_000, accuracy_bp: 8_000 },
    ];
    let (pp, acc) = stats::recompute_stats(&entries);
    // Best per map: 200pp and 100pp; weighted 200 + 0.95 * 100 = 295.
    assert_eq!(pp, 295);
    assert_eq!(acc, (9_000 + 8_000) / 2);
    // Recomputation is idempotent: the same plays give the same figures.
    let again = stats::recompute_stats(&entries);
    assert_eq!((pp, acc), again);
    let empty: Vec<BestEntry> = Vec::new();
    assert_eq!(stats::recompute_stats(&empty), (0, 0));
}

#[test]
fn aggregates_fold_in_submission() {
    let before = bancho_core::stats::UserDbStats::default();
    let after = stats::apply_submission(&before, 800_000, 450);
    assert_eq!(after.total_score, 800_000);
    assert_eq!(after.playcount, 1);
    assert_eq!(after.max_combo, 450);
    let after2 = stats::apply_submission(&after, 100, 10);
    assert_eq!(after2.total_score, 800_100);
    assert_eq!(after2.playcount, 2);
    assert_eq!(after2.max_combo, 450);
}

#[test]
fn ranking_set_never_holds_restricted() {
    let mut set = RankingSet::new();
    set.apply_update(5, 300, false);
    assert!(set.zrevrank(5).is_some());
    set.apply_update(6, 400, false);
    assert_eq!(set.zrevrank(5), Some(2));
    assert_eq!(set.zrevrank(6), Some(1));
    // A restriction removes the user from the set.
    set.apply_update(5, 300, true);
    assert!(set.zrevrank(5).is_none());
    assert!(set.zrevrank(6).is_some());
}

#[test]
fn tie_break_is_deterministic() {
    let mut a = score(0, 1, 0, 0, 0, 0);
    let mut b = score(0, 1, 0, 0, 0, 0);
    a.total_score = 500;
    b.total_score = 500;
    a.submitted_at = 100;
    b.submitted_at = 200;
    assert!(bancho_core::leaderboard::ranks_before(&a, &b, false));
    assert!(!bancho_core::leaderboard::ranks_before(&b, &a, false));
    b.total_score = 600;
    assert!(bancho_core::leaderboard::ranks_before(&b, &a, false));
    // Relax partitions order by performance instead.
    a.performance = 900;
    b.performance = 100;
    assert!(bancho_core::leaderboard::ranks_before(&a, &b, true));
}

#[test]
fn token_lifecycle() {
    let secret = b"k";
    let now = 1_700_000_000i64;
    let pw_hash = b"stored-bcrypt-hash";
    let access = tokens::mint_access_token(42, now, pw_hash, secret).expect("signs");
    let claims = tokens::verify_token(&access, now + 10, pw_hash, secret).expect("verifies");
    assert_eq!(claims.sub, 42);
    assert_eq!(claims.exp, now + tokens::ACCESS_TOKEN_LIFETIME);
    // Expired tokens are rejected.
    assert!(tokens::verify_token(&access, now + 4000, pw_hash, secret).is_none());
    // A password change invalidates the token.
    assert!(tokens::verify_token(&access, now + 10, b"other-hash", secret).is_none());
}

#[test]
fn refresh_token_older_than_two_weeks_is_rejected() {
    let secret = b"k";
    let now = 1_700_000_000i64;
    let pw = b"hash";
    let refresh = tokens::mint_refresh_token(42, now, pw, secret).expect("signs");
    let late = now + tokens::REFRESH_TOKEN_LIFETIME + 1;
    assert!(tokens::verify_token(&refresh, late, pw, secret).is_none());
    let claims = tokens::decode_token(&refresh, secret);
    let user = Some((42, String::from_utf8(pw.to_vec()).unwrap()));
    let r = tokens::refresh_grant(&claims, &user, late, secret);
    assert_eq!(r.unwrap_err(), tokens::OauthError::RefreshToken);
    assert_eq!(tokens::OauthError::RefreshToken.message(), "Invalid refresh token.");
}

#[test]
fn refresh_token_invalidated_by_password_change() {
    let secret = b"secret";
    let now = 1_700_000_000i64;
    let refresh = tokens::mint_refresh_token(7, now, b"old-hash", secret).expect("signs");
    let claims = tokens::decode_token(&refresh, secret);
    assert!(claims.is_some());
    let user = Some((7, String::from("new-hash")));
    let r = tokens::refresh_grant(&claims, &user, now + 5, secret);
    assert_eq!(r.unwrap_err(), tokens::OauthError::RefreshToken);
}

#[test]
fn password_grant_checks_md5_then_bcrypt() {
    let secret = b"k";
    let now = 1_700_000_000i64;
    // Stored hash is bcrypt of md5("password"), as the legacy client sends.
    let md5_hex = format!("{:x}", md5::compute(b"password"));
    assert_eq!(md5_hex, "5f4dcc3b5aa765d61d8327deb882cf99");
    let stored = bcrypt::hash(md5_hex.as_bytes(), 4).unwrap();
    let user = Some((1, stored));
    let ok = tokens::password_grant(&user, &String::from("password"), now, secret);
    assert!(ok.is_ok());
    let bad = tokens::password_grant(&user, &String::from("wrong"), now, secret);
    assert_eq!(bad.unwrap_err(), tokens::OauthError::InvalidCredentials);
    let nobody = tokens::password_grant(&None, &String::from("password"), now, secret);
    assert_eq!(nobody.unwrap_err(), tokens::OauthError::InvalidCredentials);
}

#[test]
fn client_validation_order() {
    let app = Some(tokens::OauthApp {
        id: 1,
        secret: String::from("s"),
        allowed_grant_types: vec![String::from("password")],
    });
    assert_eq!(
        tokens::validate_client(&None, &String::from("s"), &String::from("password")),
        Some(tokens::OauthError::ClientId)
    );
    assert_eq!(
        tokens::validate_client(&app, &String::from("s"), &String::from("refresh_token")),
        Some(tokens::OauthError::GrantType)
    );
    assert_eq!(
        tokens::validate_client(&app, &String::from("bad"), &String::from("password")),
        Some(tokens::OauthError::ClientSecret)
    );
    assert_eq!(
        tokens::validate_client(&app, &String::from("s"), &String::from("password")),
        None
    );
}

#[test]
fn level_curve_values() {
    assert_eq!(level::calculate_score_less_than_100(0), 0);
    assert_eq!(level::calculate_score_less_than_100(1), 0);
    assert_eq!(level::calculate_score_more_than_100(100), 26_931_190_827);
    assert_eq!(
        level::calculate_score_more_than_100(101),
        26_931_190_827 + 99_999_999_999
    );
    assert_eq!(level::calculate_level(0), 0);
    assert!(level::calculate_level(30_000_000_000) >= 100);
}

#[test]
fn mods_format_and_parse() {
    assert_eq!(mods::format_mods(0), "NM");
    assert_eq!(mods::format_mods(8 | 16), "HDHR");
    assert_eq!(mods::parse_mods(&String::from("HDHR")), 8 | 16);
    assert_eq!(mods::parse_mods(&String::from("hdhr")), 8 | 16);
    // Nightcore carries Doubletime's bit.
    assert_eq!(mods::parse_mods(&String::from("NC")), 512 | 64);
    assert_eq!(mods::parse_mods(&String::from("")), 0);
    let table = mods::get_mods_hashmap();
    assert_eq!(table.get(&64).unwrap(), "DT");
}

#[test]
fn decimal_round_trip() {
    let mut buf = Vec::new();
    decimal::put_dec_u64(&mut buf, 1234567890);
    assert_eq!(buf, b"1234567890");
    assert_eq!(decimal::parse_u64(&buf), Some(1234567890));
    assert_eq!(decimal::parse_u64(&b"12a".to_vec()), None);
    let mut signed = Vec::new();
    decimal::put_dec_i64(&mut signed, -42);
    assert_eq!(signed, b"-42");
}

#[test]
fn client_descriptor_parses() {
    let line = String::from("20230930|3|_|P:M:U:D");
    let data = ClientData::from(&line);
    assert_eq!(data.client_version, "20230930");
    assert_eq!(data.time_offset, 3);
    assert_eq!(data.hwid.plain, "P");
    assert_eq!(data.hwid.mac, "M");
    assert_eq!(data.hwid.uid, "U");
    assert_eq!(data.hwid.disk, "D");
    let h = HWID::from(&String::from("a:b:c"));
    assert_eq!(h.plain, "a");
    assert_eq!(h.disk, "");
}

#[test]
fn loopback_login_has_no_location() {
    let ip = Some(String::from("127.0.0.1"));
    assert!(bancho_core::client::effective_ip(&ip).is_none());
    let geo = bancho_core::client::geo_from_lookup(&None);
    assert_eq!(geo, (0, 0, 0));
    let real = Some(String::from("203.0.113.9"));
    assert_eq!(bancho_core::client::effective_ip(&real).unwrap(), "203.0.113.9");
}

#[test]
fn user_predicates_and_safe_name() {
    assert_eq!(to_safe(&String::from("Alice Bob")), "alice_bob");
    let u = User {
        id: 2,
        username: String::from("Alice"),
        username_safe: String::from("alice"),
        background_url: None,
        password: String::new(),
        country: String::from("DE"),
        permissions: 8,
        flags: 0,
        username_history: None,
        last_seen: 0,
        created_at: 0,
        donor_until: None,
        userpage_content: String::new(),
        coins: 0,
    };
    assert!(is_restricted(&u));
    let mut pending = u.clone();
    pending.flags = 32;
    assert!(!is_restricted(&pending));
}

#[test]
fn restricted_profile_access() {
    let can_view_profile = bancho_core::user::can_view_profile;
    // Unrestricted profiles are public.
    assert!(can_view_profile(0, 0, 5, &None));
    // Restricted profiles are hidden from strangers.
    assert!(!can_view_profile(8, 0, 5, &None));
    assert!(!can_view_profile(8, 0, 5, &Some((6, 0))));
    // The owner and managers still see them.
    assert!(can_view_profile(8, 0, 5, &Some((5, 0))));
    assert!(can_view_profile(8, 0, 5, &Some((6, 1))));
}

#[test]
fn leaderboard_row_format() {
    let mut s = score(0, 500, 10, 2, 1, 0);
    s.id = 9;
    s.max_combo = 450;
    s.is_perfect = true;
    s.total_score = 800_000;
    s.submitted_at = 1_700_000_000;
    let row = bancho_core::leaderboard::LeaderboardRow {
        score: s,
        user_id: 2,
        username: String::from("alice"),
        permissions: 0,
        flags: 0,
    };
    let bytes = bancho_core::leaderboard::score_row_bytes(&row, 1);
    assert_eq!(
        String::from_utf8(bytes).unwrap(),
        "9|alice|800000|450|2|10|500|1|0|0|True|0|2|1|1700000000|1"
    );
    // The Relax partition displays rounded whole performance points.
    let mut rx = score(0, 500, 10, 2, 1, 128);
    rx.id = 9;
    rx.performance = 25_049;
    let rx_row = bancho_core::leaderboard::LeaderboardRow {
        score: rx,
        user_id: 2,
        username: String::from("alice"),
        permissions: 0,
        flags: 0,
    };
    let rx_bytes = bancho_core::leaderboard::score_row_bytes(&rx_row, 1);
    let text = String::from_utf8(rx_bytes).unwrap();
    assert!(text.starts_with("9|alice|250|"));
}

#[test]
fn table_keeps_single_best_through_replacement() {
    let mut table = bancho_core::score_table::ScoreTable::new();
    // First play on a ranked map becomes the best.
    let d1 = table.submit(
        2,
        String::from("mapX"),
        false,
        0,
        false,
        false,
        20_000,
        BeatmapStatus::Ranked,
    );
    assert_eq!(d1.new_status, ScoreStatus::Best);
    // A stronger play demotes the old best to Ranked.
    let d2 = table.submit(
        2,
        String::from("mapX"),
        false,
        0,
        false,
        false,
        25_000,
        BeatmapStatus::Ranked,
    );
    assert_eq!(d2.new_status, ScoreStatus::Best);
    assert_eq!(d2.downgrade_prior_to, Some(ScoreStatus::Ranked));
    assert_eq!(table.rows.len(), 2);
    assert_eq!(table.rows[0].status, 1);
    assert_eq!(table.rows[1].status, 2);
    let best_count = table.rows.iter().filter(|r| r.status == 2 || r.status == 4).count();
    assert_eq!(best_count, 1);
    // A weaker play is stored unranked and nothing else moves.
    let d3 = table.submit(
        2,
        String::from("mapX"),
        false,
        0,
        false,
        false,
        10_000,
        BeatmapStatus::Ranked,
    );
    assert_eq!(d3.new_status, ScoreStatus::Unranked);
    assert_eq!(table.rows[1].status, 2);
}

#[test]
fn taiko_total_hits_exclude_fifties() {
    let s = score(1, 1, 0, 5, 0, 0);
    assert_eq!(s.get_total_hits(), 1);
    let (num, den) = s.calculate_accuracy();
    assert_eq!((num, den), (150, 1));
}

#[test]
fn decrypt_rejects_cipher_shapes() {
    let version = b"20230930".to_vec();
    let empty_b64 = base64::engine::general_purpose::STANDARD.encode([0u8; 0]);
    let short_iv_b64 = base64::engine::general_purpose::STANDARD.encode([7u8; 8]);
    let block_b64 = base64::engine::general_purpose::STANDARD.encode([1u8; 32]);
    // An empty ciphertext and a short IV are rejected before the cipher
    // ever sees them.
    assert!(submission::decrypt_score_payload(&version, &empty_b64, &block_b64).is_none());
    assert!(submission::decrypt_score_payload(&version, &block_b64, &short_iv_b64).is_none());
    // A ciphertext that is not a whole number of blocks is rejected too.
    let ragged_b64 = base64::engine::general_purpose::STANDARD.encode([1u8; 33]);
    assert!(submission::decrypt_score_payload(&version, &ragged_b64, &block_b64).is_none());
}

#[test]
fn failed_plays_leave_aggregates_unchanged() {
    let before = bancho_core::stats::UserDbStats::default();
    let after = stats::apply_submission_outcome(&before, true, 800_000, 450);
    assert_eq!(after.total_score, 0);
    assert_eq!(after.playcount, 0);
    assert_eq!(after.max_combo, 0);
    let counted = stats::apply_submission_outcome(&before, false, 800_000, 450);
    assert_eq!(counted.total_score, 800_000);
    assert_eq!(counted.playcount, 1);
}

#[test]
fn replay_rule_restricts_only_completed_plays() {
    assert!(submission::replay_missing_restricts(false, false, false));
    assert!(!submission::replay_missing_restricts(true, false, false));
    assert!(!submission::replay_missing_restricts(false, true, false));
    assert!(!submission::replay_missing_restricts(false, false, true));
}

#[test]
fn mods_table_has_exactly_thirteen_entries() {
    let table = mods::get_mods_hashmap();
    assert_eq!(table.len(), 13);
    assert!(table.get(&2048).is_none());
}

#[test]
fn negative_utc_offset_parses() {
    let line = String::from("20230930|-5|_|P:M:U:D");
    let data = ClientData::from(&line);
    assert_eq!(data.time_offset, -5);
    let junk = String::from("20230930|x7|_|P:M:U:D");
    assert_eq!(ClientData::from(&junk).time_offset, 0);
}

#[test]
fn chart_payload_layout() {
    let chart = |id: &str| bancho_core::chart::Chart {
        chart_id: String::from(id),
        chart_url: String::from("https://example.invalid/b/9"),
        chart_name: String::from("Beatmap Ranking"),
        score_id: 77,
        rank_before: 0,
        rank_after: 1,
        accuracy_before: 0,
        accuracy_after: 10_000,
        ranked_score_before: 0,
        ranked_score_after: 800_000,
        combo_before: 0,
        combo_after: 450,
        total_score_before: 0,
        total_score_after: 800_000,
        performance_before: 0,
        performance_after: 250,
    };
    let body = bancho_core::chart::build_chart_payload(9, 4, &chart("beatmap"), &chart("overall"));
    let text = String::from_utf8(body).unwrap();
    assert!(text.starts_with(
        "beatmapId:9|beatmapSetId:4|beatmapPlaycount:0|beatmapPasscount:0|approvedDate:\n\n"
    ));
    let lines: Vec<&str> = text.lines().collect();
    assert_eq!(lines.len(), 4);
    assert!(lines[2].starts_with("chartId:beatmap|chartUrl:"));
    assert!(lines[3].starts_with("chartId:overall|"));
    assert!(lines[2].contains("|accuracyAfter:100.00|"));
    assert!(lines[2].contains("|ppAfter:250|"));
    assert!(lines[2].ends_with("|achievements-new:|onlineScoreId:77"));
}

#[test]
fn scores_response_layout() {
    let row = |id: i32, total: i64| bancho_core::leaderboard::LeaderboardRow {
        score: {
            let mut s = score(0, 500, 10, 2, 1, 0);
            s.id = id;
            s.total_score = total;
            s.is_perfect = false;
            s
        },
        user_id: id,
        username: String::from("alice"),
        permissions: 0,
        flags: 0,
    };
    let rows = vec![row(1, 900_000), row(2, 800_000)];
    let best = Some((row(2, 800_000), 2i64));
    let body = bancho_core::leaderboard::scores_response_bytes(
        2,
        9,
        4,
        &String::from("Artist"),
        &String::from("Title"),
        &best,
        &rows,
    );
    let text = String::from_utf8(body).unwrap();
    let lines: Vec<&str> = text.lines().collect();
    assert_eq!(lines[0], "2|false|9|4|0");
    assert_eq!(lines[1], "0");
    assert_eq!(lines[2], "Artist - Title");
    assert_eq!(lines[3], "2");
    assert!(lines[4].starts_with("2|alice|800000|"));
    assert!(lines[5].starts_with("1|alice|900000|"));
    assert!(lines[6].starts_with("2|alice|800000|"));
    // An unranked map hides the leaderboard but keeps the header.
    let hidden = bancho_core::leaderboard::scores_response_bytes(
        0,
        9,
        4,
        &String::from("Artist"),
        &String::from("Title"),
        &None,
        &rows,
    );
    let hidden_text = String::from_utf8(hidden).unwrap();
    let hl: Vec<&str> = hidden_text.lines().collect();
    assert_eq!(hl[3], "0");
    assert!(bancho_core::leaderboard::leaderboard_version_ok(4));
    assert!(!bancho_core::leaderboard::leaderboard_version_ok(3));
}

#[test]
fn stats_store_keeps_one_row_per_pair() {
    let mut store = bancho_core::stats::StatsStore::new();
    let stats1 = bancho_core::stats::UserDbStats::default();
    store.upsert(2, 0, stats1.clone());
    store.upsert(2, 1, stats1.clone());
    // A second write to the same pair replaces, never duplicates.
    let mut stats2 = bancho_core::stats::UserDbStats::default();
    stats2.performance = 295;
    store.upsert(2, 0, stats2);
    assert_eq!(store.rows.len(), 2);
    assert_eq!(store.rows[0].2.performance, 295);
    assert_eq!(store.rows[1].2.performance, 0);
}

#[test]
fn pending_verification_users_stay_off_leaderboards() {
    let mk = |perm: i32, flags: i32| bancho_core::leaderboard::LeaderboardRow {
        score: score(0, 500, 10, 2, 1, 0),
        user_id: perm,
        username: String::from("u"),
        permissions: perm,
        flags,
    };
    // Any restriction bit hides the row, pending verification included.
    let rows = vec![mk(0, 0), mk(8, 0), mk(8, 32)];
    let visible = bancho_core::leaderboard::filter_restricted(rows);
    assert_eq!(visible.len(), 1);
    assert_eq!(visible[0].permissions, 0);
}
