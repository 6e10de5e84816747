//! The session gateway's decisions: which action each incoming frame asks
//! for, and the exact packet sequence a fresh login is welcomed with.

use vstd::prelude::*;
use vstd::utf8::encode_utf8;
use crate::packets;

verus! {

/// What a frame from the client asks the gateway to do.
#[derive(Debug, Clone, Copy, PartialEq, Eq, Structural)]
pub enum FrameAction {
    Ping,
    RequestStatusUpdate,
    ChangeAction,
    Logout,
    ChannelJoin,
    ChannelPart,
    SendPublicMessage,
    SendPrivateMessage,
    StatsRequest,
    SpectateStart,
    SpectateStop,
    SpectateFrames,
    Unknown,
}

/// Classify a frame by its packet id, as the dispatch loop does.
pub fn classify_frame(id: u16) -> (r: FrameAction)
    ensures
        id == packets::OSU_PING ==> r is Ping,
        id == packets::OSU_USER_REQUEST_STATUS_UPDATE ==> r is RequestStatusUpdate,
        id == packets::OSU_USER_CHANGE_ACTION ==> r is ChangeAction,
        id == packets::OSU_USER_LOGOUT ==> r is Logout,
        id == packets::OSU_USER_CHANNEL_JOIN ==> r is ChannelJoin,
        id == packets::OSU_USER_CHANNEL_PART ==> r is ChannelPart,
        id == packets::OSU_SEND_PUBLIC_MESSAGE ==> r is SendPublicMessage,
        id == packets::OSU_SEND_PRIVATE_MESSAGE ==> r is SendPrivateMessage,
        id == packets::OSU_USER_STATS_REQUEST ==> r is StatsRequest,
        id == packets::OSU_SPECTATE_START ==> r is SpectateStart,
        id == packets::OSU_SPECTATE_STOP ==> r is SpectateStop,
        id == packets::OSU_SPECTATE_FRAMES ==> r is SpectateFrames,
{
    match id {
        packets::OSU_PING => FrameAction::Ping,
        packets::OSU_USER_REQUEST_STATUS_UPDATE => FrameAction::RequestStatusUpdate,
        packets::OSU_USER_CHANGE_ACTION => FrameAction::ChangeAction,
        packets::OSU_USER_LOGOUT => FrameAction::Logout,
        packets::OSU_USER_CHANNEL_JOIN => FrameAction::ChannelJoin,
        packets::OSU_USER_CHANNEL_PART => FrameAction::ChannelPart,
        packets::OSU_SEND_PUBLIC_MESSAGE => FrameAction::SendPublicMessage,
        packets::OSU_SEND_PRIVATE_MESSAGE => FrameAction::SendPrivateMessage,
        packets::OSU_USER_STATS_REQUEST => FrameAction::StatsRequest,
        packets::OSU_SPECTATE_START => FrameAction::SpectateStart,
        packets::OSU_SPECTATE_STOP => FrameAction::SpectateStop,
        packets::OSU_SPECTATE_FRAMES => FrameAction::SpectateFrames,
        _ => FrameAction::Unknown,
    }
}

/// The fixed head of the welcome a fresh session receives, before the
/// channel listing: the login acknowledgement, the client privileges, the
/// protocol version, a cleared silence and the channel-list terminator.
pub open spec fn spec_welcome_head(user_id: i32) -> Seq<u8> {
    packets::spec_login_reply(user_id) + packets::spec_i32_packet(packets::BANCHO_PRIVILEGES, 4)
        + packets::spec_i32_packet(packets::BANCHO_PROTOCOL_VERSION, 19) + packets::spec_i32_packet(
        packets::BANCHO_SILENCE_END,
        0,
    ) + packets::spec_channel_info_end()
}

/// Build the welcome head for a logged-in user.
pub fn welcome_head(user_id: i32) -> (r: Vec<u8>)
    ensures
        r@ == spec_welcome_head(user_id),
{
    let mut out: Vec<u8> = Vec::new();
    let mut p = packets::login_reply(user_id);
    append_bytes(&mut out, &p);
    p = packets::bancho_privileges(4);
    append_bytes(&mut out, &p);
    p = packets::protocol_version(19);
    append_bytes(&mut out, &p);
    p = packets::silence_end(0);
    append_bytes(&mut out, &p);
    p = packets::channel_info_end();
    append_bytes(&mut out, &p);
    assert(out@ =~= spec_welcome_head(user_id));
    out
}

/// The automatic joins of a fresh session: the acknowledgements for "#osu"
/// and "#announce".
pub fn welcome_auto_joins() -> (r: Vec<u8>)
    ensures
        r@ == packets::spec_channel_join("#osu"@) + packets::spec_channel_join("#announce"@),
{
    proof {
        reveal_strlit("#osu");
        reveal_strlit("#announce");
        vstd::utf8::is_ascii_chars_encode_utf8("#osu"@);
        vstd::utf8::is_ascii_chars_encode_utf8("#announce"@);
        assert(vstd::utf8::is_ascii_chars("#osu"@));
        assert(vstd::utf8::is_ascii_chars("#announce"@));
    }
    let mut out: Vec<u8> = Vec::new();
    let a = packets::channel_join("#osu");
    append_bytes(&mut out, &a);
    let b = packets::channel_join("#announce");
    append_bytes(&mut out, &b);
    assert(out@ =~= packets::spec_channel_join("#osu"@) + packets::spec_channel_join(
        "#announce"@,
    ));
    out
}

fn append_bytes(out: &mut Vec<u8>, b: &Vec<u8>)
    ensures
        final(out)@ == old(out)@ + b@,
{
    let mut i: usize = 0;
    while i < b.len()
        invariant
            i <= b@.len(),
            out@ =~= old(out)@ + b@.subrange(0, i as int),
        decreases b@.len() - i,
    {
        out.push(b[i]);
        proof {
            assert(out@ =~= old(out)@ + b@.subrange(0, i + 1));
        }
        i = i + 1;
    }
    proof {
        assert(b@.subrange(0, b@.len() as int) =~= b@);
    }
}

/// The silence notice a freshly logged-in session receives when a stored
/// silence still runs: the remaining seconds, clamped into the packet's
/// range; none when the silence has lapsed.
pub fn welcome_silence(silenced_until: i64, now: i64) -> (r: Option<Vec<u8>>)
    requires
        0 <= now,
        silenced_until <= 0x1000_0000_0000_0000,
    ensures
        silenced_until > now <==> r is Some,
        r matches Some(v) ==> v@ == packets::spec_i32_packet(
            packets::BANCHO_SILENCE_END,
            if silenced_until - now > i32::MAX {
                i32::MAX
            } else {
                (silenced_until - now) as i32
            },
        ),
{
    if silenced_until > now {
        let remaining: i64 = silenced_until - now;
        let seconds: i32 = if remaining > 0x7fff_ffffi64 {
            i32::MAX
        } else {
            remaining as i32
        };
        Some(packets::silence_end(seconds))
    } else {
        None
    }
}

/// Whether the rest of the server learns of a login: restricted accounts
/// stay invisible to everyone else.
pub fn login_visibility(permissions: i32, flags: i32) -> (r: bool)
    ensures
        r == !crate::user::spec_is_restricted(permissions, flags),
{
    !((permissions & 8) > 0 && (flags & 32) == 0)
}

/// Whether a frame-batch request may proceed: a session must exist for the
/// presented token; otherwise the client is told to reconnect.
pub fn batch_response_when_unknown_token() -> (r: Vec<u8>)
    ensures
        r@ == packets::spec_i32_packet(packets::BANCHO_RESTART, 1),
{
    packets::bancho_restart(1)
}

} // verus!
