//! Operations that cross the presence registry and the channel manager:
//! the composed logout (registry removal, channel cleanup, logout
//! broadcast), the stale-session sweep, and message delivery into the
//! recipients' queues.

use vstd::prelude::*;
use vstd::utf8::encode_utf8;
use crate::channels::{
    channel_part_effect, lemma_part_preserves_nodup, route_public_message, spec_part,
    spec_route_public, ChannelManager, RouteRejection,
};
use crate::packets;
use crate::presence::{delivery_effect, relay_effect, BanchoManager};
use crate::user::spec_is_restricted;

verus! {

/// Dispose the session carrying this token: it leaves the registry, every
/// channel membership it held, and its logout is broadcast to the
/// remaining sessions (the bot excepted). An unknown token changes
/// nothing.
pub fn dispose_session(
    manager: &mut BanchoManager,
    channels: &mut ChannelManager,
    token: &String,
) -> (r: Option<i32>)
    requires
        old(manager).wf(),
    ensures
        final(manager).wf(),
        old(channels).wf() ==> final(channels).wf(),
        r is None <==> (forall|i: int|
            0 <= i < old(manager).presences@.len() ==> (#[trigger] old(
                manager,
            ).presences@[i]).token@ != token@),
        r is None ==> *final(manager) == *old(manager) && *final(channels) == *old(channels),
        r matches Some(uid) ==> (exists|i: int|
            0 <= i < old(manager).presences@.len() && (#[trigger] old(
                manager,
            ).presences@[i]).token@ == token@ && old(manager).presences@[i].user_id == uid
                && final(manager).presences@.len() == old(manager).presences@.len() - 1 && (forall|
                j: int,
            |
                0 <= j < final(manager).presences@.len() ==> #[trigger] delivery_effect(
                    old(manager).presences@.remove(i)[j],
                    final(manager).presences@[j],
                    packets::spec_user_logout(uid),
                ))),
        r matches Some(uid) ==> final(channels).channels@.len() == old(
            channels,
        ).channels@.len() && (forall|c: int|
            0 <= c < old(channels).channels@.len() ==> #[trigger] channel_part_effect(
                old(channels).channels@[c],
                final(channels).channels@[c],
                uid,
            )),
{
    match manager.dispose_presence(token) {
        None => None,
        Some(p) => {
            let uid = p.user_id;
            let ghost mid = manager.presences@;
            channels.remove_user_everywhere(uid);
            let packet = packets::user_logout(uid);
            manager.broadcast_packet(&packet);
            proof {
                let i = choose|i: int|
                    0 <= i < old(manager).presences@.len() && old(manager).presences@[i] == p
                        && p.token@ == token@ && mid == old(manager).presences@.remove(i);
                assert(old(manager).presences@[i].token@ == token@);
                assert forall|j: int|
                    0 <= j < manager.presences@.len() implies #[trigger] delivery_effect(
                    old(manager).presences@.remove(i)[j],
                    manager.presences@[j],
                    packets::spec_user_logout(uid),
                ) by {
                    assert(delivery_effect(
                        mid[j],
                        manager.presences@[j],
                        packets::spec_user_logout(uid),
                    ));
                }
            }
            Some(uid)
        },
    }
}

/// Sweep every stale session: afterwards no non-bot session older than the
/// cutoff remains, each one disposed with full cleanup and its logout
/// broadcast.
pub fn sweep_sessions(manager: &mut BanchoManager, channels: &mut ChannelManager, cutoff: i64)
    requires
        old(manager).wf(),
        old(channels).wf(),
    ensures
        final(manager).wf(),
        final(channels).wf(),
        forall|i: int|
            0 <= i < final(manager).presences@.len() ==> !((#[trigger] final(manager).presences@[i]).user_id != 1 && final(manager).presences@[i].last_ping < cutoff),
{
    loop
        invariant
            manager.wf(),
            channels.wf(),
        ensures
            manager.wf(),
            channels.wf(),
            forall|i: int|
                0 <= i < manager.presences@.len() ==> !((#[trigger] manager.presences@[i]).user_id
                    != 1 && manager.presences@[i].last_ping < cutoff),
        decreases manager.presences@.len(),
    {
        let mut stale: Option<String> = None;
        let mut i: usize = 0;
        while i < manager.presences.len() && stale.is_none()
            invariant
                i <= manager.presences@.len(),
                stale is None ==> forall|j: int|
                    0 <= j < i ==> !((#[trigger] manager.presences@[j]).user_id != 1
                        && manager.presences@[j].last_ping < cutoff),
                stale matches Some(t) ==> exists|k: int|
                    0 <= k < manager.presences@.len() && (#[trigger] manager.presences@[k]).token@
                        == t@,
            decreases manager.presences@.len() - i, (if stale is None {
                1int
            } else {
                0int
            }),
        {
            if manager.presences[i].user_id != 1 && manager.presences[i].last_ping < cutoff {
                stale = Some(manager.presences[i].token.clone());
                proof {
                    assert(stale matches Some(t) && t@ == manager.presences@[i as int].token@);
                }
            } else {
                i = i + 1;
            }
        }
        match stale {
            None => {
                return;
            },
            Some(token) => {
                let ghost pre_len = manager.presences@.len();
                let r = dispose_session(manager, channels, &token);
                proof {
                    assert(r is Some);
                    assert(manager.presences@.len() < pre_len);
                }
            },
        }
    }
}

/// Deliver a public message: the routing rule decides the recipients, and
/// on success each recipient's queue gains exactly one chat packet carrying
/// the sender's name and id; a rejection changes nothing.
pub fn deliver_public_message(
    manager: &mut BanchoManager,
    channels: &ChannelManager,
    chan_idx: Option<usize>,
    sender_username: &String,
    sender_id: i32,
    sender_restricted: bool,
    content: &String,
    target: &String,
) -> (r: Result<(), RouteRejection>)
    requires
        old(manager).wf(),
        channels.wf(),
        chan_idx matches Some(i) ==> i < channels.channels@.len(),
        encode_utf8(sender_username@).len() < 0x1000_0000,
        encode_utf8(content@).len() < 0x1000_0000,
        encode_utf8(target@).len() < 0x1000_0000,
    ensures
        final(manager).wf(),
        ({
            let members = match chan_idx {
                Some(i) => Some(channels.channels@[i as int].users@),
                None => None,
            };
            match r {
                Err(e) => spec_route_public(members, sender_id, sender_restricted) == Err::<
                    Seq<i32>,
                    RouteRejection,
                >(e) && *final(manager) == *old(manager),
                Ok(u) => (spec_route_public(members, sender_id, sender_restricted) matches Ok(
                    recipients,
                ) && final(manager).presences@.len() == old(manager).presences@.len() && (forall|
                    j: int,
                |
                    0 <= j < old(manager).presences@.len() ==> #[trigger] relay_effect(
                        old(manager).presences@[j],
                        final(manager).presences@[j],
                        recipients,
                        packets::spec_send_message(
                            sender_username@,
                            content@,
                            target@,
                            sender_id,
                        ),
                    ))),
            }
        }),
{
    match route_public_message(channels, chan_idx, sender_id, sender_restricted) {
        Err(e) => Err(e),
        Ok(recipients) => {
            let m = packets::BanchoMessage {
                sender: sender_username.clone(),
                content: content.clone(),
                target: target.clone(),
                sender_id,
            };
            let packet = packets::send_message(&m);
            proof {
                if let Some(i) = chan_idx {
                    assert(channels.channels@[i as int].wf());
                    lemma_part_preserves_nodup(channels.channels@[i as int].users@, sender_id);
                }
            }
            manager.enqueue_to_targets(&recipients, &packet);
            Ok(())
        },
    }
}

/// Why a private message is dropped instead of delivered.
#[derive(Debug, Clone, Copy, PartialEq, Eq, Structural)]
pub enum PrivateRejection {
    SenderRestricted,
    RecipientOffline,
    RecipientRestricted,
}

/// Deliver a private message to the session whose normalized username is
/// the target: a restricted sender sends nothing; an offline target drops
/// the message; a restricted target receives mail only from the bot. On
/// success exactly the target's queue gains the chat packet.
pub fn deliver_private_message(
    manager: &mut BanchoManager,
    sender_username: &String,
    sender_id: i32,
    sender_restricted: bool,
    content: &String,
    target_safe: &String,
    target_display: &String,
) -> (r: Result<(), PrivateRejection>)
    requires
        old(manager).wf(),
        encode_utf8(sender_username@).len() < 0x1000_0000,
        encode_utf8(content@).len() < 0x1000_0000,
        encode_utf8(target_display@).len() < 0x1000_0000,
    ensures
        final(manager).wf(),
        final(manager).presences@.len() == old(manager).presences@.len(),
        r is Err ==> *final(manager) == *old(manager),
        r == Result::<(), PrivateRejection>::Err(PrivateRejection::SenderRestricted)
            <==> sender_restricted,
        !sender_restricted ==> (r == Result::<(), PrivateRejection>::Err(
            PrivateRejection::RecipientOffline,
        ) <==> (forall|i: int|
            0 <= i < old(manager).presences@.len() ==> (#[trigger] old(
                manager,
            ).presences@[i]).username_safe@ != target_safe@)),
        r is Ok ==> (exists|i: int|
            0 <= i < old(manager).presences@.len() && (#[trigger] old(
                manager,
            ).presences@[i]).username_safe@ == target_safe@ && !(spec_is_restricted(
                old(manager).presences@[i].permissions,
                old(manager).presences@[i].flags,
            ) && sender_id != 1) && final(manager).presences@[i].queue@ == old(
                manager,
            ).presences@[i].queue@ + packets::spec_send_message(
                sender_username@,
                content@,
                target_display@,
                sender_id,
            ) && final(manager).presences@[i] == (crate::presence::Presence {
                queue: final(manager).presences@[i].queue,
                ..old(manager).presences@[i]
            }) && (forall|j: int|
                0 <= j < old(manager).presences@.len() && j != i ==> final(manager).presences@[j] == old(manager).presences@[j])),
{
    if sender_restricted {
        return Err(PrivateRejection::SenderRestricted);
    }
    match manager.find_by_username_safe(target_safe) {
        None => Err(PrivateRejection::RecipientOffline),
        Some(idx) => {
            let t = &manager.presences[idx];
            if (t.permissions & 8) > 0 && (t.flags & 32) == 0 && sender_id != 1 {
                return Err(PrivateRejection::RecipientRestricted);
            }
            let m = packets::BanchoMessage {
                sender: sender_username.clone(),
                content: content.clone(),
                target: target_display.clone(),
                sender_id,
            };
            let packet = packets::send_message(&m);
            manager.enqueue_to(idx, &packet);
            Ok(())
        },
    }
}

} // verus!
