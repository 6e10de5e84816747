use bancho_core::packets;
use bancho_core::presence::{BanchoManager, Presence};
use bancho_core::channels::{Channel, ChannelManager};
use bancho_core::stats::UserDbStats;
use bancho_packets::BanchoPacket;

fn presence(user_id: i32, name: &str) -> Presence {
    Presence {
        token: format!("token-{}", user_id),
        user_id,
        username: String::from(name),
        username_safe: String::from(name),
        permissions: 0,
        flags: 0,
        country: 0,
        latitude_bits: 0,
        longitude_bits: 0,
        time_offset: 0,
        status: packets::ClientChangeAction {
            online_status: 0,
            description: String::new(),
            beatmap_md5: String::new(),
            mods: 0,
            mode: 0,
            beatmap_id: 0,
        },
        stats: UserDbStats::default(),
        queue: Vec::new(),
        previous_message: String::new(),
        previous_message_repeated: 0,
        silenced_until: 0,
        spectating: None,
        spectators: Vec::new(),
        last_ping: 0,
    }
}

#[test]
fn login_reply_matches_reference_crate() {
    let ours = bancho_core::packets::login_reply(1009);
    let reference = bancho_packets::server::LoginReply::success(1009).into_packet_data();
    assert_eq!(ours, reference);
}

#[test]
fn notification_matches_reference_crate() {
    let ours = packets::notification("Hello, World!💖");
    let reference =
        bancho_packets::server::Notification::new("Hello, World!💖".into()).into_packet_data();
    assert_eq!(ours, reference);
}

#[test]
fn user_stats_matches_reference_crate() {
    let acc: f32 = 98.76;
    let ours = packets::user_stats(
        5,
        2,
        "playing",
        "a0b1c2",
        8,
        0,
        1234,
        1_000_000,
        (acc / 100f32).to_bits(),
        321,
        2_000_000,
        7,
        654,
    );
    let reference = bancho_packets::server::UserStats::new(
        5,
        2,
        "playing".into(),
        "a0b1c2".into(),
        8,
        0,
        1234,
        1_000_000,
        acc,
        321,
        2_000_000,
        7,
        654,
    )
    .into_packet_data();
    assert_eq!(ours, reference);
}

#[test]
fn user_presence_matches_reference_crate() {
    let ours = packets::user_presence(7, "alice", 3 + 24, 56, 4u8, 0, 0, 12);
    let reference = bancho_packets::server::UserPresence::new(
        7,
        "alice".into(),
        3,
        56,
        4,
        0.0,
        0.0,
        12,
    )
    .into_packet_data();
    assert_eq!(ours, reference);
}

#[test]
fn send_message_matches_reference_crate() {
    let m = packets::BanchoMessage {
        sender: String::from("alice"),
        content: String::from("hello"),
        target: String::from("#osu"),
        sender_id: 7,
    };
    let ours = packets::send_message(&m);
    let reference = bancho_packets::server::SendMessage::new(
        "alice".into(),
        "hello".into(),
        "#osu".into(),
        7,
    )
    .into_packet_data();
    assert_eq!(ours, reference);
}

#[test]
fn user_logout_matches_reference_crate() {
    let ours = packets::user_logout(33);
    let reference = bancho_packets::server::UserLogout::new(33).into_packet_data();
    assert_eq!(ours, reference);
}

#[test]
fn message_round_trip() {
    let m = packets::BanchoMessage {
        sender: String::from("bob"),
        content: String::from("!roll 50 ✨"),
        target: String::from("#announce"),
        sender_id: -3,
    };
    let mut buf = Vec::new();
    packets::put_message(&mut buf, &m);
    let (back, pos) = packets::read_message(&buf, 0).expect("decodes");
    assert_eq!(pos, buf.len());
    assert_eq!(back.sender, m.sender);
    assert_eq!(back.content, m.content);
    assert_eq!(back.target, m.target);
    assert_eq!(back.sender_id, m.sender_id);
    // Re-encoding what was decoded reproduces the input bytes.
    let mut again = Vec::new();
    packets::put_message(&mut again, &back);
    assert_eq!(again, buf);
}

#[test]
fn change_action_round_trip() {
    let a = packets::ClientChangeAction {
        online_status: 2,
        description: String::from("playing a map"),
        beatmap_md5: String::from("0123456789abcdef"),
        mods: 72,
        mode: 0,
        beatmap_id: 424242,
    };
    let mut buf = Vec::new();
    packets::put_change_action(&mut buf, &a);
    let (back, pos) = packets::read_change_action(&buf, 0).expect("decodes");
    assert_eq!(pos, buf.len());
    assert_eq!(back.mods, 72);
    assert_eq!(back.beatmap_id, 424242);
    let mut again = Vec::new();
    packets::put_change_action(&mut again, &back);
    assert_eq!(again, buf);
}

#[test]
fn frame_round_trip_via_reference_reader() {
    let payload = vec![0xDEu8, 0xAD, 0xBE, 0xEF];
    let frame = packets::make_frame(packets::BANCHO_SPECTATE_FRAMES, &payload);
    let mut reader = bancho_packets::PacketReader::new(&frame);
    let packet = reader.next().expect("one frame");
    assert_eq!(packet.id as u16, packets::BANCHO_SPECTATE_FRAMES);
    assert_eq!(packet.payload.unwrap(), &payload[..]);
    let (id, body, pos) = packets::next_frame(&frame, 0).expect("parses");
    assert_eq!(id, packets::BANCHO_SPECTATE_FRAMES);
    assert_eq!(body, payload);
    assert_eq!(pos, frame.len());
}

#[test]
fn i32_list_round_trip() {
    let l = vec![1i32, -5, 70000];
    let mut buf = Vec::new();
    packets::put_i32_list(&mut buf, &l);
    let (back, pos) = packets::read_i32_list(&buf, 0).expect("decodes");
    assert_eq!(pos, buf.len());
    assert_eq!(back, l);
}

#[test]
fn spam_silence_on_sixth_identical_message() {
    let mut p = presence(2, "spammer");
    let msg = String::from("buy followers");
    let now = 1_700_000_000i64;
    assert!(!p.trigger_moderation(&msg, now));
    for _ in 0..4 {
        assert!(!p.trigger_moderation(&msg, now));
    }
    // The sixth identical message triggers the silence.
    assert!(p.trigger_moderation(&msg, now));
    assert_eq!(p.silenced_until, now + 600);
    assert_eq!(p.queue, packets::silence_end(600));
}

#[test]
fn spectator_fan_out_delivers_frames() {
    let mut manager = BanchoManager::init();
    let mut a = presence(10, "A");
    a.spectators = vec![11, 12];
    manager.presences.push(a);
    manager.presences.push(presence(11, "B"));
    manager.presences.push(presence(12, "C"));
    let payload = vec![0xDEu8, 0xAD, 0xBE, 0xEF];
    manager.spectate_frames(0, &payload);
    let expected = packets::spectate_frames(&payload);
    assert_eq!(manager.presences[1].queue, expected);
    assert_eq!(manager.presences[2].queue, expected);
    assert!(manager.presences[0].queue.is_empty());
}

#[test]
fn broadcast_skips_bot() {
    let mut manager = BanchoManager::init();
    manager.presences.push(presence(1, "Mio"));
    manager.presences.push(presence(2, "alice"));
    let packet = packets::user_logout(9);
    manager.broadcast_packet(&packet);
    assert!(manager.presences[0].queue.is_empty());
    assert_eq!(manager.presences[1].queue, packet);
}

#[test]
fn stale_sweep_lists_quiet_sessions() {
    let mut manager = BanchoManager::init();
    let mut old_one = presence(2, "quiet");
    old_one.last_ping = 100;
    let mut fresh = presence(3, "busy");
    fresh.last_ping = 1000;
    manager.presences.push(old_one);
    manager.presences.push(fresh);
    let stale = manager.stale_tokens(500);
    assert_eq!(stale.len(), 1);
    assert_eq!(stale[0], "token-2");
}

#[test]
fn channel_join_is_idempotent_and_part_removes() {
    let mut c = Channel {
        id: 1,
        name: String::from("#osu"),
        channel_type: String::from("public"),
        description: String::new(),
        users: Vec::new(),
    };
    c.join(5);
    c.join(5);
    assert_eq!(c.users, vec![5]);
    c.part(5);
    assert!(c.users.is_empty());
}

#[test]
fn public_route_excludes_sender_and_restricted() {
    let mut m = ChannelManager::new();
    let name = String::from("#osu");
    m.create_private_channel(1, &name);
    let idx = m.find_by_name(&name).unwrap();
    m.join_channel_at(idx, 5);
    m.join_channel_at(idx, 6);
    m.join_channel_at(idx, 7);
    let recipients = bancho_core::channels::route_public_message(&m, Some(idx), 5, false).unwrap();
    assert_eq!(recipients, vec![6, 7]);
    let rejected = bancho_core::channels::route_public_message(&m, Some(idx), 5, true);
    assert!(rejected.is_err());
    let outsider = bancho_core::channels::route_public_message(&m, Some(idx), 9, false);
    assert!(outsider.is_err());
}

#[test]
fn spectator_room_name() {
    assert_eq!(bancho_core::channels::spectator_channel_name(123), "#spec_123");
    let spec = String::from("#spectator");
    let resolved = bancho_core::channels::resolve_public_target(&spec, 4, &Some(9), false);
    assert_eq!(resolved, "#spec_9");
    let host = bancho_core::channels::resolve_public_target(&spec, 4, &None, true);
    assert_eq!(host, "#spec_4");
    let other = String::from("#osu");
    assert_eq!(bancho_core::channels::resolve_public_target(&other, 4, &None, false), "#osu");
}

#[test]
fn welcome_sequence_layout() {
    // The login response begins with the success reply and carries the
    // fixed privileges, protocol version, silence reset and channel-list
    // terminator, then the automatic channel joins.
    let head = bancho_core::gateway::welcome_head(42);
    let mut expected = Vec::new();
    expected.extend(bancho_packets::server::LoginReply::success(42).into_packet_data());
    expected.extend(bancho_packets::server::BanchoPrivileges::new(4).into_packet_data());
    expected.extend(bancho_packets::server::ProtocolVersion::new(19).into_packet_data());
    expected.extend(bancho_packets::server::SilenceEnd::new(0).into_packet_data());
    expected.extend(bancho_packets::server::ChannelInfoEnd::new().into_packet_data());
    assert_eq!(head, expected);
    let joins = bancho_core::gateway::welcome_auto_joins();
    let mut expected_joins = Vec::new();
    expected_joins.extend(bancho_packets::server::ChannelJoin::new("#osu".into()).into_packet_data());
    expected_joins
        .extend(bancho_packets::server::ChannelJoin::new("#announce".into()).into_packet_data());
    assert_eq!(joins, expected_joins);
}

#[test]
fn frame_classification() {
    assert_eq!(bancho_core::gateway::classify_frame(4), bancho_core::gateway::FrameAction::Ping);
    assert_eq!(
        bancho_core::gateway::classify_frame(1),
        bancho_core::gateway::FrameAction::SendPublicMessage
    );
    assert_eq!(
        bancho_core::gateway::classify_frame(18),
        bancho_core::gateway::FrameAction::SpectateFrames
    );
    assert_eq!(
        bancho_core::gateway::classify_frame(999),
        bancho_core::gateway::FrameAction::Unknown
    );
}

#[test]
fn admin_notification_dispatch() {
    let body = |mt: &str, target: &str, key: &str| bancho_core::api::MessageBody {
        message: String::from("hi"),
        message_type: String::from(mt),
        target: String::from(target),
        key: String::from(key),
    };
    let secret = String::from("s3");
    let d = |b, online| bancho_core::admin::decide_notification(&b, &secret, online);
    assert_eq!(d(body("pm", "alice", "bad"), true), bancho_core::admin::AdminNotifyAction::Unauthorized);
    assert_eq!(d(body("pm", "alice", "s3"), true), bancho_core::admin::AdminNotifyAction::PmFromBot);
    assert_eq!(d(body("pm", "alice", "s3"), false), bancho_core::admin::AdminNotifyAction::TargetOffline);
    assert_eq!(d(body("chat", "#announce", "s3"), true), bancho_core::admin::AdminNotifyAction::PublicFromBot);
    assert_eq!(d(body("chat", "announce", "s3"), true), bancho_core::admin::AdminNotifyAction::InvalidTarget);
    assert_eq!(d(body("notification", "alice", "s3"), true), bancho_core::admin::AdminNotifyAction::Notify);
    assert_eq!(d(body("mail", "alice", "s3"), true), bancho_core::admin::AdminNotifyAction::InvalidType);
}

#[test]
fn admin_update_dispatch() {
    let body = |m: &str, key: &str| bancho_core::api::ServerMessageStruct {
        key: String::from(key),
        user_id: 7,
        args: Vec::new(),
        method: String::from(m),
    };
    let secret = String::from("s3");
    let d = |b, restricted| bancho_core::admin::decide_update(&b, &secret, restricted);
    assert_eq!(d(body("user:refresh", "x"), false), bancho_core::admin::AdminUpdateAction::Unauthorized);
    assert_eq!(d(body("user:refresh", "s3"), false), bancho_core::admin::AdminUpdateAction::RefreshStats);
    assert_eq!(d(body("user:restricted", "s3"), true), bancho_core::admin::AdminUpdateAction::EnforceRestriction);
    assert_eq!(d(body("user:restricted", "s3"), false), bancho_core::admin::AdminUpdateAction::AnnounceUnrestricted);
    assert_eq!(d(body("user:ping", "s3"), false), bancho_core::admin::AdminUpdateAction::UnknownMethod);
}

#[test]
fn bot_command_parsing() {
    let (name, args) = bancho_core::bot::parse_command(&String::from("!roll 50")).unwrap();
    assert_eq!(name, "roll");
    assert_eq!(args, vec![String::from("50")]);
    let (name2, args2) = bancho_core::bot::parse_command(&String::from("!map loved set")).unwrap();
    assert_eq!(name2, "map");
    assert_eq!(args2, vec![String::from("loved"), String::from("set")]);
    assert!(bancho_core::bot::parse_command(&String::from("hello")).is_none());
    assert!(bancho_core::bot::parse_command(&String::from("")).is_none());
}

#[test]
fn bot_beatmap_id_scan() {
    let msg = String::from("is listening to [https://osu.ppy.sh/b/123 some map]");
    assert_eq!(bancho_core::bot::extract_beatmap_id(&msg), Some(123));
    let tail = String::from("see /42");
    assert_eq!(bancho_core::bot::extract_beatmap_id(&tail), None);
    let none = String::from("no link here");
    assert_eq!(bancho_core::bot::extract_beatmap_id(&none), None);
}

#[test]
fn bot_map_command_decision() {
    let args = vec![String::from("loved"), String::from("set")];
    // No moderator bit: refused.
    assert!(bancho_core::bot::decide_map_command(0, &args, true, 2).is_err());
    // No remembered beatmap: refused.
    assert!(bancho_core::bot::decide_map_command(4, &args, false, 2).is_err());
    let d = bancho_core::bot::decide_map_command(4, &args, true, 2).unwrap();
    assert_eq!(d.new_status, 5);
    assert_eq!(d.scope, bancho_core::bot::MapScope::WholeSet);
    // Leaving Ranked unranks the prior Bests.
    assert!(d.unrank_bests);
    let stay = vec![String::from("ranked"), String::from("map")];
    let d2 = bancho_core::bot::decide_map_command(4, &stay, true, 2).unwrap();
    assert!(!d2.unrank_bests);
    let bad = vec![String::from("published"), String::from("map")];
    assert!(bancho_core::bot::decide_map_command(4, &bad, true, 2).is_err());
}

#[test]
fn welcome_silence_and_visibility() {
    let now = 1_700_000_000i64;
    assert!(bancho_core::gateway::welcome_silence(now - 1, now).is_none());
    let notice = bancho_core::gateway::welcome_silence(now + 600, now).unwrap();
    assert_eq!(notice, packets::silence_end(600));
    assert!(bancho_core::gateway::login_visibility(0, 0));
    assert!(!bancho_core::gateway::login_visibility(8, 0));
    assert!(bancho_core::gateway::login_visibility(8, 32));
}

#[test]
fn channel_listing_covers_public_channels() {
    let mut m = ChannelManager::new();
    m.channels.push(Channel {
        id: 1,
        name: String::from("#osu"),
        channel_type: String::from("public"),
        description: String::from("main"),
        users: vec![5, 6],
    });
    m.channels.push(Channel {
        id: -7,
        name: String::from("#spec_7"),
        channel_type: String::from("private_temp"),
        description: String::from("Temp channel"),
        users: vec![7],
    });
    let listing = m.channel_listing();
    let expected = bancho_core::packets::channel_info("#osu", "main", 2);
    assert_eq!(listing, expected);
}

#[test]
fn composed_dispose_cleans_everything() {
    let mut manager = BanchoManager::init();
    let mut channels = ChannelManager::new();
    channels.channels.push(Channel {
        id: 1,
        name: String::from("#osu"),
        channel_type: String::from("public"),
        description: String::new(),
        users: vec![2, 3],
    });
    manager.presences.push(presence(2, "alice"));
    manager.presences.push(presence(3, "bob"));
    let token = String::from("token-2");
    let uid = bancho_core::session::dispose_session(&mut manager, &mut channels, &token);
    assert_eq!(uid, Some(2));
    // Registry, channels and the logout broadcast all observed the logout.
    assert_eq!(manager.presences.len(), 1);
    assert_eq!(channels.channels[0].users, vec![3]);
    assert_eq!(manager.presences[0].queue, packets::user_logout(2));
    // An unknown token is a no-op.
    let nothing = bancho_core::session::dispose_session(&mut manager, &mut channels, &token);
    assert!(nothing.is_none());
}

#[test]
fn sweep_disposes_every_quiet_session() {
    let mut manager = BanchoManager::init();
    let mut channels = ChannelManager::new();
    let mut a = presence(2, "a");
    a.last_ping = 10;
    let mut b = presence(3, "b");
    b.last_ping = 20;
    let mut fresh = presence(4, "c");
    fresh.last_ping = 1000;
    manager.presences.push(presence(1, "Mio"));
    manager.presences.push(a);
    manager.presences.push(b);
    manager.presences.push(fresh);
    bancho_core::session::sweep_sessions(&mut manager, &mut channels, 500);
    assert_eq!(manager.get_online(), 2);
    assert!(manager.find_by_user_id(2).is_none());
    assert!(manager.find_by_user_id(3).is_none());
    assert!(manager.find_by_user_id(4).is_some());
}

#[test]
fn public_delivery_reaches_member_queues() {
    let mut manager = BanchoManager::init();
    let mut channels = ChannelManager::new();
    channels.channels.push(Channel {
        id: 1,
        name: String::from("#osu"),
        channel_type: String::from("public"),
        description: String::new(),
        users: vec![2, 3, 4],
    });
    manager.presences.push(presence(2, "alice"));
    manager.presences.push(presence(3, "bob"));
    manager.presences.push(presence(4, "carol"));
    let idx = channels.find_by_name(&String::from("#osu"));
    let r = bancho_core::session::deliver_public_message(
        &mut manager,
        &channels,
        idx,
        &String::from("alice"),
        2,
        false,
        &String::from("hello"),
        &String::from("#osu"),
    );
    assert!(r.is_ok());
    let expected = packets::send_message(&packets::BanchoMessage {
        sender: String::from("alice"),
        content: String::from("hello"),
        target: String::from("#osu"),
        sender_id: 2,
    });
    assert!(manager.presences[0].queue.is_empty());
    assert_eq!(manager.presences[1].queue, expected);
    assert_eq!(manager.presences[2].queue, expected);
    // A restricted sender delivers nothing.
    let rejected = bancho_core::session::deliver_public_message(
        &mut manager,
        &channels,
        idx,
        &String::from("alice"),
        2,
        true,
        &String::from("hello"),
        &String::from("#osu"),
    );
    assert!(rejected.is_err());
}

#[test]
fn private_delivery_honors_restriction() {
    let mut manager = BanchoManager::init();
    let mut restricted = presence(3, "bob");
    restricted.permissions = 8;
    manager.presences.push(presence(2, "alice"));
    manager.presences.push(restricted);
    // A normal user cannot mail a restricted one.
    let refused = bancho_core::session::deliver_private_message(
        &mut manager,
        &String::from("alice"),
        2,
        false,
        &String::from("hi"),
        &String::from("bob"),
        &String::from("bob"),
    );
    assert_eq!(refused.unwrap_err(), bancho_core::session::PrivateRejection::RecipientRestricted);
    // The bot can.
    let ok = bancho_core::session::deliver_private_message(
        &mut manager,
        &String::from("Mio"),
        1,
        false,
        &String::from("hi"),
        &String::from("bob"),
        &String::from("bob"),
    );
    assert!(ok.is_ok());
    assert!(!manager.presences[1].queue.is_empty());
    // Offline targets drop the message.
    let offline = bancho_core::session::deliver_private_message(
        &mut manager,
        &String::from("alice"),
        2,
        false,
        &String::from("hi"),
        &String::from("nobody"),
        &String::from("nobody"),
    );
    assert_eq!(offline.unwrap_err(), bancho_core::session::PrivateRejection::RecipientOffline);
}

#[test]
fn restricted_login_is_invisible() {
    let mut manager = BanchoManager::init();
    let mut restricted = presence(2, "alice");
    restricted.permissions = 8;
    manager.presences.push(restricted);
    manager.presences.push(presence(3, "bob"));
    manager.announce_login(0, 5);
    // Nobody else heard about it; the session itself got the explanation.
    assert!(manager.presences[1].queue.is_empty());
    assert!(!manager.presences[0].queue.is_empty());
    // An unrestricted login is announced to the others but not to itself.
    let mut manager2 = BanchoManager::init();
    manager2.presences.push(presence(2, "alice"));
    manager2.presences.push(presence(3, "bob"));
    manager2.presences.push(presence(1, "Mio"));
    manager2.announce_login(0, 5);
    assert!(manager2.presences[0].queue.is_empty());
    assert!(!manager2.presences[1].queue.is_empty());
    assert!(manager2.presences[2].queue.is_empty());
}

#[test]
fn match_update_reader_round_trips() {
    // Build a lobby frame by hand: two occupied slots carry player ids,
    // free-mods carries sixteen per-slot mod words.
    let mut payload: Vec<u8> = Vec::new();
    packets::put_u16(&mut payload, 77);
    payload.push(0);
    payload.push(1);
    packets::put_u32(&mut payload, 64);
    packets::put_str(&mut payload, "room");
    packets::put_str(&mut payload, "");
    packets::put_str(&mut payload, "map");
    packets::put_i32(&mut payload, 1234);
    packets::put_str(&mut payload, "md5md5");
    let mut statuses = vec![1u8; 16];
    statuses[0] = 4;
    statuses[1] = 8;
    for b in &statuses {
        payload.push(*b);
    }
    for _ in 0..16 {
        payload.push(0);
    }
    packets::put_i32(&mut payload, 2);
    packets::put_i32(&mut payload, 3);
    packets::put_i32(&mut payload, 2);
    payload.push(0);
    payload.push(0);
    payload.push(0);
    payload.push(1);
    for _ in 0..16 {
        packets::put_u32(&mut payload, 8);
    }
    packets::put_i32(&mut payload, 42);
    let (m, consumed) = bancho_core::multi::read_match_update(&payload, 0).expect("parses");
    assert_eq!(consumed, payload.len());
    assert_eq!(m.match_id, 77);
    assert!(!m.in_progress);
    assert_eq!(m.match_type, 1);
    assert_eq!(m.play_mods, 64);
    assert_eq!(m.match_name, "room");
    assert_eq!(m.beatmap_id, 1234);
    assert_eq!(m.slot_players, vec![2, 3]);
    assert_eq!(m.host_player_id, 2);
    assert!(m.freemods);
    assert_eq!(m.player_mods.len(), 16);
    assert_eq!(m.match_seed, 42);
}

#[test]
fn ranked_sort_orders_rows() {
    let row = |id: i32, total: i64, at: i64| bancho_core::leaderboard::LeaderboardRow {
        score: {
            let mut s = bancho_core::score::Score {
                id,
                max_combo: 1,
                count_50: 0,
                count_100: 0,
                count_300: 1,
                count_miss: 0,
                count_geki: 0,
                count_katu: 0,
                total_score: total,
                is_perfect: false,
                status: 2,
                submitted_at: at,
                playmode: 0,
                performance: id as u64,
                mods: 0,
                beatmap_checksum: String::from("x"),
            };
            s.total_score = total;
            s
        },
        user_id: id,
        username: String::from("u"),
        permissions: 0,
        flags: 0,
    };
    let rows = vec![row(1, 100, 5), row(2, 900, 5), row(3, 100, 1)];
    let sorted = bancho_core::leaderboard::sort_leaderboard(&rows, false);
    // Highest score first; the earlier submission wins the tie.
    assert_eq!(sorted[0].user_id, 2);
    assert_eq!(sorted[1].user_id, 3);
    assert_eq!(sorted[2].user_id, 1);
    let (best, rank) = bancho_core::leaderboard::user_best_with_rank(&sorted, 1).unwrap();
    assert_eq!(best.user_id, 1);
    assert_eq!(rank, 3);
    assert!(bancho_core::leaderboard::user_best_with_rank(&sorted, 9).is_none());
}
