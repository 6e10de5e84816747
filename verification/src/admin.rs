//! The internal admin channel's decisions: every request must present the
//! server secret, and the two endpoints dispatch on a message type or a
//! method name. The outcomes here are exactly the actions the gateway then
//! performs.

use vstd::prelude::*;
use crate::api::{MessageBody, ServerMessageStruct};
use crate::mods::string_chars;

verus! {

/// What a notification request asks the gateway to do.
#[derive(Debug, Clone, Copy, PartialEq, Eq, Structural)]
pub enum AdminNotifyAction {
    /// The key did not match the server secret.
    Unauthorized,
    /// Deliver the message as a private message from the bot.
    PmFromBot,
    /// Deliver the message to a public channel as the bot.
    PublicFromBot,
    /// Queue a notification packet for the target user.
    Notify,
    /// A chat target must name a channel.
    InvalidTarget,
    /// The message type is not one of pm, chat or notification.
    InvalidType,
    /// The target user is not online.
    TargetOffline,
}

/// Dispatch a notification request: an unauthorized key first; "chat"
/// requires a '#'-prefixed target; "pm" and "notification" require the
/// target to be online.
pub fn decide_notification(body: &MessageBody, secret: &String, target_online: bool) -> (r:
    AdminNotifyAction)
    ensures
        (body.key@ != secret@) <==> r is Unauthorized,
        body.key@ == secret@ && body.message_type@ == "pm"@ && target_online ==> r is PmFromBot,
        body.key@ == secret@ && body.message_type@ == "pm"@ && !target_online
            ==> r is TargetOffline,
        body.key@ == secret@ && body.message_type@ == "chat"@ && body.target@.len() > 0
            && body.target@[0] == '#' ==> r is PublicFromBot,
        body.key@ == secret@ && body.message_type@ == "chat"@ && (body.target@.len() == 0
            || body.target@[0] != '#') ==> r is InvalidTarget,
        body.key@ == secret@ && body.message_type@ == "notification"@ && target_online
            ==> r is Notify,
        body.key@ == secret@ && body.message_type@ == "notification"@ && !target_online
            ==> r is TargetOffline,
        body.key@ == secret@ && body.message_type@ != "pm"@ && body.message_type@ != "chat"@
            && body.message_type@ != "notification"@ ==> r is InvalidType,
{
    proof {
        reveal_strlit("pm");
        reveal_strlit("chat");
        reveal_strlit("notification");
        assert("pm"@.len() == 2 && "chat"@.len() == 4 && "notification"@.len() == 12);
        assert("pm"@ != "chat"@ && "pm"@ != "notification"@ && "chat"@ != "notification"@);
    }
    if !body.key.eq(secret) {
        return AdminNotifyAction::Unauthorized;
    }
    let pm = String::from_str("pm");
    let chat = String::from_str("chat");
    let notification = String::from_str("notification");
    if body.message_type.eq(&pm) {
        if target_online {
            AdminNotifyAction::PmFromBot
        } else {
            AdminNotifyAction::TargetOffline
        }
    } else if body.message_type.eq(&chat) {
        if starts_with_hash(&body.target) {
            AdminNotifyAction::PublicFromBot
        } else {
            AdminNotifyAction::InvalidTarget
        }
    } else if body.message_type.eq(&notification) {
        if target_online {
            AdminNotifyAction::Notify
        } else {
            AdminNotifyAction::TargetOffline
        }
    } else {
        AdminNotifyAction::InvalidType
    }
}

/// Whether a chat target names a channel.
pub fn starts_with_hash(s: &String) -> (r: bool)
    ensures
        r == (s@.len() > 0 && s@[0] == '#'),
{
    let chars = string_chars(s.as_str());
    chars.len() > 0 && chars[0] == '#'
}

/// What an update request asks the gateway to do.
#[derive(Debug, Clone, Copy, PartialEq, Eq, Structural)]
pub enum AdminUpdateAction {
    /// The key did not match the server secret.
    Unauthorized,
    /// Recompute the presence's stats and broadcast them.
    RefreshStats,
    /// The account is now restricted: tell the user, broadcast its logout,
    /// and clear its spectator links.
    EnforceRestriction,
    /// The account was just unrestricted: rebroadcast its stats and tell
    /// the user to relog.
    AnnounceUnrestricted,
    /// The method name is unknown.
    UnknownMethod,
}

/// Dispatch an update request by its method and the account's current
/// restriction state.
pub fn decide_update(body: &ServerMessageStruct, secret: &String, currently_restricted: bool) -> (r:
    AdminUpdateAction)
    ensures
        (body.key@ != secret@) <==> r is Unauthorized,
        body.key@ == secret@ && body.method@ == "user:refresh"@ ==> r is RefreshStats,
        body.key@ == secret@ && body.method@ == "user:restricted"@ && currently_restricted
            ==> r is EnforceRestriction,
        body.key@ == secret@ && body.method@ == "user:restricted"@ && !currently_restricted
            ==> r is AnnounceUnrestricted,
        body.key@ == secret@ && body.method@ != "user:refresh"@ && body.method@
            != "user:restricted"@ ==> r is UnknownMethod,
{
    proof {
        reveal_strlit("user:refresh");
        reveal_strlit("user:restricted");
        assert("user:refresh"@.len() == 12 && "user:restricted"@.len() == 15);
        assert("user:refresh"@ != "user:restricted"@);
    }
    if !body.key.eq(secret) {
        return AdminUpdateAction::Unauthorized;
    }
    let refresh = String::from_str("user:refresh");
    let restricted = String::from_str("user:restricted");
    if body.method.eq(&refresh) {
        AdminUpdateAction::RefreshStats
    } else if body.method.eq(&restricted) {
        if currently_restricted {
            AdminUpdateAction::EnforceRestriction
        } else {
            AdminUpdateAction::AnnounceUnrestricted
        }
    } else {
        AdminUpdateAction::UnknownMethod
    }
}

} // verus!
