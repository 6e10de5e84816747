//! The presence registry: one entry per logged-in session, holding the
//! session's user, status, outbound byte queue, anti-spam counters and
//! spectator links. The registry keeps tokens and user ids unique; the bot
//! is the entry with user id 1.

use vstd::prelude::*;
use vstd::utf8::encode_utf8;
use crate::packets;
use crate::packets::ClientChangeAction;
use crate::stats::UserDbStats;
use crate::user::spec_is_restricted;

verus! {

/// One logged-in session.
#[derive(Debug)]
pub struct Presence {
    pub token: String,
    pub user_id: i32,
    pub username: String,
    pub username_safe: String,
    pub permissions: i32,
    pub flags: i32,
    pub country: u8,
    /// Latitude and longitude as raw IEEE single bits, as the wire carries
    /// them.
    pub latitude_bits: u32,
    pub longitude_bits: u32,
    pub time_offset: i8,
    pub status: ClientChangeAction,
    pub stats: UserDbStats,
    /// Bytes waiting to be handed to the client on its next request.
    pub queue: Vec<u8>,
    pub previous_message: String,
    pub previous_message_repeated: i32,
    /// Epoch second until which the session is silenced.
    pub silenced_until: i64,
    /// User id this session is watching, if any.
    pub spectating: Option<i32>,
    /// User ids watching this session; no duplicates, never the session
    /// itself.
    pub spectators: Vec<i32>,
    /// Epoch second of the last request from this session.
    pub last_ping: i64,
}

impl Presence {
    /// A fresh session for a user: a newly drawn token, empty queue and
    /// counters, and the given account and location fields.
    pub fn new(
        user_id: i32,
        username: String,
        username_safe: String,
        permissions: i32,
        flags: i32,
        country: u8,
        latitude_bits: u32,
        longitude_bits: u32,
        time_offset: i8,
        now: i64,
    ) -> (r: Presence)
        ensures
            r.token@.len() == 36,
            r.user_id == user_id,
            r.username == username,
            r.username_safe == username_safe,
            r.permissions == permissions,
            r.flags == flags,
            r.country == country,
            r.latitude_bits == latitude_bits,
            r.longitude_bits == longitude_bits,
            r.time_offset == time_offset,
            r.queue@ == Seq::<u8>::empty(),
            r.previous_message_repeated == 0,
            r.silenced_until == 0,
            r.spectating is None,
            r.spectators@ == Seq::<i32>::empty(),
            r.last_ping == now,
            r.wf(),
    {
        Presence {
            token: crate::crypto::generate_session_token(),
            user_id,
            username,
            username_safe,
            permissions,
            flags,
            country,
            latitude_bits,
            longitude_bits,
            time_offset,
            status: ClientChangeAction {
                online_status: 0,
                description: String::new(),
                beatmap_md5: String::new(),
                mods: 0,
                mode: 0,
                beatmap_id: 0,
            },
            stats: UserDbStats::default(),
            queue: Vec::new(),
            previous_message: String::new(),
            previous_message_repeated: 0,
            silenced_until: 0,
            spectating: None,
            spectators: Vec::new(),
            last_ping: now,
        }
    }

    /// Internal consistency of one session's spectator links.
    pub open spec fn wf(&self) -> bool {
        &&& forall|i: int, j: int|
            0 <= i < j < self.spectators@.len() ==> self.spectators@[i] != self.spectators@[j]
        &&& forall|i: int| 0 <= i < self.spectators@.len() ==> self.spectators@[i] != self.user_id
    }

    /// Append packet bytes for the client.
    pub fn enqueue(&mut self, packet: &Vec<u8>)
        ensures
            *final(self) == (Presence { queue: final(self).queue, ..*old(self) }),
            final(self).queue@ == old(self).queue@ + packet@,
    {
        let mut i: usize = 0;
        while i < packet.len()
            invariant
                i <= packet@.len(),
                self.queue@ == old(self).queue@ + packet@.subrange(0, i as int),
                *self == (Presence { queue: self.queue, ..*old(self) }),
            decreases packet@.len() - i,
        {
            let b = packet[i];
            self.queue.push(b);
            proof {
                assert(self.queue@ =~= old(self).queue@ + packet@.subrange(0, i + 1));
            }
            i = i + 1;
        }
        proof {
            assert(packet@.subrange(0, packet@.len() as int) =~= packet@);
        }
    }

    /// Swap the queue out and return it: the client gets everything that
    /// accumulated, and the queue starts over empty.
    pub fn dequeue(&mut self) -> (r: Vec<u8>)
        ensures
            r@ == old(self).queue@,
            *final(self) == (Presence { queue: final(self).queue, ..*old(self) }),
            final(self).queue@ == Seq::<u8>::empty(),
    {
        let mut out: Vec<u8> = Vec::new();
        core::mem::swap(&mut out, &mut self.queue);
        out
    }

    /// The anti-spam hook, run on every public message. A changed message
    /// resets the counter; a repeat raises it, and the fifth repeat (the
    /// sixth identical message in a row) silences the session for ten
    /// minutes, queues the silence notice, and reports true so the caller
    /// broadcasts the silence.
    pub fn trigger_moderation(&mut self, content: &String, now: i64) -> (r: bool)
        requires
            old(self).previous_message_repeated < i32::MAX,
            now <= 0x1000_0000_0000_0000,
        ensures
            r == (old(self).previous_message@ == content@ && old(self).previous_message_repeated
                + 1 >= 5),
            old(self).previous_message@ != content@ ==> *final(self) == (Presence {
                previous_message: final(self).previous_message,
                previous_message_repeated: 0,
                ..*old(self)
            }) && final(self).previous_message@ == content@,
            old(self).previous_message@ == content@ && old(self).previous_message_repeated + 1 < 5
                ==> *final(self) == (Presence {
                previous_message_repeated: (old(self).previous_message_repeated + 1) as i32,
                ..*old(self)
            }),
            r ==> *final(self) == (Presence {
                previous_message_repeated: (old(self).previous_message_repeated + 1) as i32,
                silenced_until: (now + 600) as i64,
                queue: final(self).queue,
                ..*old(self)
            }) && final(self).queue@ == old(self).queue@ + packets::spec_i32_packet(
                packets::BANCHO_SILENCE_END,
                600,
            ),
    {
        if !self.previous_message.eq(content) {
            self.previous_message = content.clone();
            self.previous_message_repeated = 0;
            return false;
        }
        self.previous_message_repeated = self.previous_message_repeated + 1;
        if self.previous_message_repeated >= 5 {
            self.silenced_until = now + 600;
            let notice = packets::silence_end(600);
            self.enqueue(&notice);
            return true;
        }
        false
    }
}

/// How a delivery changes one session: only the queue moves, and it gains
/// exactly the given bytes — except the bot, which broadcasts skip.
pub open spec fn delivery_effect(before: Presence, after: Presence, bytes: Seq<u8>) -> bool {
    &&& after == (Presence { queue: after.queue, ..before })
    &&& (before.user_id != 1 ==> after.queue@ == before.queue@ + bytes)
    &&& (before.user_id == 1 ==> after.queue@ == before.queue@)
}

/// How a spectator relay changes one session: watchers named in `targets`
/// gain the bytes, everyone else is untouched.
pub open spec fn relay_effect(before: Presence, after: Presence, targets: Seq<i32>, bytes: Seq<u8>) -> bool {
    &&& after == (Presence { queue: after.queue, ..before })
    &&& (targets.contains(before.user_id) ==> after.queue@ == before.queue@ + bytes)
    &&& (!targets.contains(before.user_id) ==> after.queue@ == before.queue@)
}

/// Whether the listing holds this token.
pub open spec fn token_listed(out: Seq<String>, token: Seq<char>) -> bool {
    exists|k: int| 0 <= k < out.len() && (#[trigger] out[k])@ == token
}

/// Whether some non-bot session in the list carries this token and went
/// quiet before the cutoff.
pub open spec fn names_stale_session(s: Seq<Presence>, token: Seq<char>, cutoff: i64) -> bool {
    exists|i: int|
        0 <= i < s.len() && (#[trigger] s[i]).token@ == token && s[i].user_id != 1
            && s[i].last_ping < cutoff
}

/// The process-wide registry of sessions.
pub struct BanchoManager {
    pub presences: Vec<Presence>,
}

impl BanchoManager {
    /// Registry invariant: tokens and user ids are unique, and every entry
    /// is internally consistent.
    pub open spec fn wf(&self) -> bool {
        &&& forall|i: int, j: int|
            0 <= i < j < self.presences@.len() ==> self.presences@[i].user_id
                != self.presences@[j].user_id
        &&& forall|i: int, j: int|
            0 <= i < j < self.presences@.len() ==> self.presences@[i].token@
                != self.presences@[j].token@
        &&& forall|i: int| 0 <= i < self.presences@.len() ==> (#[trigger] self.presences@[i]).wf()
    }

    pub fn init() -> (r: BanchoManager)
        ensures
            r.wf(),
            r.presences@.len() == 0,
    {
        BanchoManager { presences: Vec::new() }
    }

    pub fn get_online(&self) -> (r: usize)
        ensures
            r == self.presences@.len(),
    {
        self.presences.len()
    }

    /// Index of the session with this token.
    pub fn find_by_token(&self, token: &String) -> (r: Option<usize>)
        ensures
            r matches Some(i) ==> i < self.presences@.len() && self.presences@[i as int].token@
                == token@,
            r is None ==> forall|i: int|
                0 <= i < self.presences@.len() ==> (#[trigger] self.presences@[i]).token@ != token@,
    {
        let mut i: usize = 0;
        while i < self.presences.len()
            invariant
                i <= self.presences@.len(),
                forall|j: int|
                    0 <= j < i ==> (#[trigger] self.presences@[j]).token@ != token@,
            decreases self.presences@.len() - i,
        {
            if self.presences[i].token.eq(token) {
                return Some(i);
            }
            i = i + 1;
        }
        None
    }

    /// Index of the session of this user.
    pub fn find_by_user_id(&self, user_id: i32) -> (r: Option<usize>)
        ensures
            r matches Some(i) ==> i < self.presences@.len() && self.presences@[i as int].user_id
                == user_id,
            r is None ==> forall|i: int|
                0 <= i < self.presences@.len() ==> (#[trigger] self.presences@[i]).user_id
                    != user_id,
    {
        let mut i: usize = 0;
        while i < self.presences.len()
            invariant
                i <= self.presences@.len(),
                forall|j: int|
                    0 <= j < i ==> (#[trigger] self.presences@[j]).user_id != user_id,
            decreases self.presences@.len() - i,
        {
            if self.presences[i].user_id == user_id {
                return Some(i);
            }
            i = i + 1;
        }
        None
    }

    /// Index of the session whose normalized username is given.
    pub fn find_by_username_safe(&self, name: &String) -> (r: Option<usize>)
        ensures
            r matches Some(i) ==> i < self.presences@.len()
                && self.presences@[i as int].username_safe@ == name@,
            r is None ==> forall|i: int|
                0 <= i < self.presences@.len() ==> (#[trigger] self.presences@[i]).username_safe@
                    != name@,
    {
        let mut i: usize = 0;
        while i < self.presences.len()
            invariant
                i <= self.presences@.len(),
                forall|j: int|
                    0 <= j < i ==> (#[trigger] self.presences@[j]).username_safe@ != name@,
            decreases self.presences@.len() - i,
        {
            if self.presences[i].username_safe.eq(name) {
                return Some(i);
            }
            i = i + 1;
        }
        None
    }

    /// Append a packet to one session's queue, leaving the rest alone.
    pub fn enqueue_to(&mut self, idx: usize, packet: &Vec<u8>)
        requires
            idx < old(self).presences@.len(),
        ensures
            final(self).presences@.len() == old(self).presences@.len(),
            forall|j: int|
                0 <= j < old(self).presences@.len() && j != idx ==> final(self).presences@[j]
                    == old(self).presences@[j],
            final(self).presences@[idx as int] == (Presence {
                queue: final(self).presences@[idx as int].queue,
                ..old(self).presences@[idx as int]
            }),
            final(self).presences@[idx as int].queue@ == old(self).presences@[idx as int].queue@
                + packet@,
            old(self).wf() ==> final(self).wf(),
    {
        let mut p = self.presences.remove(idx);
        p.enqueue(packet);
        self.presences.insert(idx, p);
        proof {
            assert(self.presences@ =~= old(self).presences@.update(
                idx as int,
                self.presences@[idx as int],
            ));
        }
    }

    /// Deliver a packet to every session but the bot: each other queue is
    /// extended with exactly these bytes, in the order they were given.
    pub fn broadcast_packet(&mut self, packet: &Vec<u8>)
        ensures
            final(self).presences@.len() == old(self).presences@.len(),
            forall|j: int|
                0 <= j < old(self).presences@.len() ==> #[trigger] delivery_effect(
                    old(self).presences@[j],
                    final(self).presences@[j],
                    packet@,
                ),
            old(self).wf() ==> final(self).wf(),
    {
        let mut i: usize = 0;
        while i < self.presences.len()
            invariant
                self.presences@.len() == old(self).presences@.len(),
                i <= self.presences@.len(),
                forall|j: int|
                    i <= j < old(self).presences@.len() ==> self.presences@[j] == old(
                        self,
                    ).presences@[j],
                forall|j: int|
                    0 <= j < i ==> #[trigger] delivery_effect(
                        old(self).presences@[j],
                        self.presences@[j],
                        packet@,
                    ),
            decreases self.presences@.len() - i,
        {
            if self.presences[i].user_id != 1 {
                self.enqueue_to(i, packet);
            }
            i = i + 1;
        }
        proof {
            if old(self).wf() {
                assert forall|j: int| 0 <= j < self.presences@.len() implies (
                #[trigger] self.presences@[j]).user_id == old(self).presences@[j].user_id
                    && self.presences@[j].token@ == old(self).presences@[j].token@ && self.presences@[j].spectators@
                    == old(self).presences@[j].spectators@ by {
                    assert(delivery_effect(
                        old(self).presences@[j],
                        self.presences@[j],
                        packet@,
                    ));
                }
                assert forall|j: int| 0 <= j < self.presences@.len() implies (
                #[trigger] self.presences@[j]).wf() by {
                    assert(delivery_effect(
                        old(self).presences@[j],
                        self.presences@[j],
                        packet@,
                    ));
                    assert(old(self).presences@[j].wf());
                }
            }
        }
    }

    /// Remove the session with this token, returning it for the caller to
    /// clean up channels and announce the logout.
    pub fn dispose_presence(&mut self, token: &String) -> (r: Option<Presence>)
        ensures
            r is None <==> (forall|i: int|
                0 <= i < old(self).presences@.len() ==> (#[trigger] old(self).presences@[i]).token@
                    != token@),
            r is None ==> *final(self) == *old(self),
            r matches Some(p) ==> exists|i: int|
                0 <= i < old(self).presences@.len() && old(self).presences@[i] == p
                    && p.token@ == token@ && final(self).presences@ == old(
                    self,
                ).presences@.remove(i),
            old(self).wf() ==> final(self).wf(),
    {
        match self.find_by_token(token) {
            None => None,
            Some(i) => {
                let p = self.presences.remove(i);
                Some(p)
            },
        }
    }

    /// The sessions whose last request is older than the cutoff, except the
    /// bot: exactly the ones a sweep must dispose. Everything listed is
    /// stale, and every stale session is listed.
    pub fn stale_tokens(&self, cutoff: i64) -> (r: Vec<String>)
        ensures
            forall|k: int|
                0 <= k < r@.len() ==> #[trigger] names_stale_session(
                    self.presences@,
                    r@[k]@,
                    cutoff,
                ),
            forall|i: int|
                0 <= i < self.presences@.len() && (#[trigger] self.presences@[i]).user_id != 1
                    && self.presences@[i].last_ping < cutoff ==> token_listed(
                    r@,
                    self.presences@[i].token@,
                ),
    {
        let mut out: Vec<String> = Vec::new();
        let mut i: usize = 0;
        while i < self.presences.len()
            invariant
                i <= self.presences@.len(),
                forall|k: int|
                    0 <= k < out@.len() ==> #[trigger] names_stale_session(
                        self.presences@,
                        out@[k]@,
                        cutoff,
                    ),
                forall|j: int|
                    0 <= j < i && (#[trigger] self.presences@[j]).user_id != 1
                        && self.presences@[j].last_ping < cutoff ==> token_listed(
                        out@,
                        self.presences@[j].token@,
                    ),
            decreases self.presences@.len() - i,
        {
            let ghost pre = out@;
            if self.presences[i].user_id != 1 && self.presences[i].last_ping < cutoff {
                out.push(self.presences[i].token.clone());
                proof {
                    assert(out@[out@.len() - 1]@ == self.presences@[i as int].token@);
                    assert(names_stale_session(
                        self.presences@,
                        self.presences@[i as int].token@,
                        cutoff,
                    ));
                    assert(token_listed(out@, self.presences@[i as int].token@));
                }
            }
            proof {
                assert forall|j: int|
                    0 <= j < i + 1 && (#[trigger] self.presences@[j]).user_id != 1
                        && self.presences@[j].last_ping < cutoff implies token_listed(
                    out@,
                    self.presences@[j].token@,
                ) by {
                    if j < i {
                        assert(token_listed(pre, self.presences@[j].token@));
                        let k = choose|k: int|
                            0 <= k < pre.len() && (#[trigger] pre[k])@ == self.presences@[j].token@;
                        assert(out@[k]@ == self.presences@[j].token@);
                    }
                }
            }
            i = i + 1;
        }
        out
    }

    /// Deliver a packet to every session whose user id is listed: each
    /// target's queue gains exactly these bytes, and nobody else moves.
    pub fn enqueue_to_targets(&mut self, targets: &Vec<i32>, packet: &Vec<u8>)
        requires
            old(self).wf(),
            forall|i: int, j: int| 0 <= i < j < targets@.len() ==> targets@[i] != targets@[j],
        ensures
            final(self).wf(),
            final(self).presences@.len() == old(self).presences@.len(),
            forall|j: int|
                0 <= j < old(self).presences@.len() ==> #[trigger] relay_effect(
                    old(self).presences@[j],
                    final(self).presences@[j],
                    targets@,
                    packet@,
                ),
    {
        let ghost specs = targets@;
        let mut k: usize = 0;
        while k < targets.len()
            invariant
                self.wf(),
                k <= targets@.len(),
                targets@ == specs,
                self.presences@.len() == old(self).presences@.len(),
                forall|i: int, j: int| 0 <= i < j < specs.len() ==> specs[i] != specs[j],
                forall|j: int|
                    0 <= j < old(self).presences@.len() ==> #[trigger] relay_effect(
                        old(self).presences@[j],
                        self.presences@[j],
                        specs.subrange(0, k as int),
                        packet@,
                    ),
            decreases targets@.len() - k,
        {
            let target = targets[k];
            let ghost snap = self.presences@;
            let ghost prefix = specs.subrange(0, k as int);
            let ghost prefix1 = specs.subrange(0, k + 1);
            proof {
                assert(prefix1 =~= prefix.push(specs[k as int]));
                assert(!prefix.contains(target));
                assert(prefix1[k as int] == target);
                assert(prefix1.contains(target));
                assert(forall|uid: i32|
                    uid != target ==> prefix1.contains(uid) == prefix.contains(uid));
            }
            match self.find_by_user_id(target) {
                None => {
                    proof {
                        assert forall|j: int|
                            0 <= j < old(self).presences@.len() implies #[trigger] relay_effect(
                            old(self).presences@[j],
                            self.presences@[j],
                            prefix1,
                            packet@,
                        ) by {
                            assert(relay_effect(
                                old(self).presences@[j],
                                self.presences@[j],
                                prefix,
                                packet@,
                            ));
                            assert(self.presences@[j].user_id != target);
                            assert(old(self).presences@[j].user_id == self.presences@[j].user_id);
                        }
                    }
                },
                Some(idx) => {
                    proof {
                        assert(relay_effect(
                            old(self).presences@[idx as int],
                            snap[idx as int],
                            prefix,
                            packet@,
                        ));
                        assert(old(self).presences@[idx as int].user_id == target);
                        assert(snap[idx as int].queue@ == old(
                            self,
                        ).presences@[idx as int].queue@);
                    }
                    self.enqueue_to(idx, packet);
                    proof {
                        assert forall|j: int|
                            0 <= j < old(self).presences@.len() implies #[trigger] relay_effect(
                            old(self).presences@[j],
                            self.presences@[j],
                            prefix1,
                            packet@,
                        ) by {
                            let before = old(self).presences@[j];
                            if j == idx {
                                assert(self.presences@[j].queue@ == snap[j].queue@ + packet@);
                                assert(before.user_id == target);
                                assert(prefix1.contains(before.user_id));
                            } else {
                                assert(self.presences@[j] == snap[j]);
                                assert(relay_effect(before, snap[j], prefix, packet@));
                                if before.user_id == target {
                                    assert(snap[j].user_id == target);
                                    assert(snap[idx as int].user_id == target);
                                    assert(false);
                                }
                            }
                        }
                    }
                },
            }
            k = k + 1;
        }
        proof {
            assert(specs.subrange(0, specs.len() as int) =~= specs);
        }
    }

    /// Relay spectate frames from the host at `host_idx` to every watcher:
    /// each watcher's queue gains one frame packet whose payload is the
    /// host's bytes, unchanged; everything else stays as it was.
    pub fn spectate_frames(&mut self, host_idx: usize, frames: &Vec<u8>)
        requires
            old(self).wf(),
            host_idx < old(self).presences@.len(),
            frames@.len() < 0x1_0000_0000,
        ensures
            final(self).wf(),
            final(self).presences@.len() == old(self).presences@.len(),
            forall|j: int|
                0 <= j < old(self).presences@.len() ==> #[trigger] relay_effect(
                    old(self).presences@[j],
                    final(self).presences@[j],
                    old(self).presences@[host_idx as int].spectators@,
                    packets::spec_spectate_frames(frames@),
                ),
    {
        let packet = packets::spectate_frames(frames);
        let watchers = copy_spectators(&self.presences[host_idx]);
        self.enqueue_to_targets(&watchers, &packet);
    }

    /// Refresh a session's liveness clock; nothing else moves.
    pub fn touch(&mut self, idx: usize, now: i64)
        requires
            idx < old(self).presences@.len(),
        ensures
            final(self).presences@.len() == old(self).presences@.len(),
            forall|j: int|
                0 <= j < old(self).presences@.len() && j != idx ==> final(self).presences@[j]
                    == old(self).presences@[j],
            final(self).presences@[idx as int] == (Presence {
                last_ping: now,
                ..old(self).presences@[idx as int]
            }),
            old(self).wf() ==> final(self).wf(),
    {
        let mut p = self.presences.remove(idx);
        p.last_ping = now;
        self.presences.insert(idx, p);
        proof {
            assert(self.presences@ =~= old(self).presences@.update(
                idx as int,
                self.presences@[idx as int],
            ));
        }
    }

    /// Announce a fresh login: an unrestricted session's presence packet is
    /// queued for every other non-bot session; a restricted session is
    /// announced to nobody and instead finds the bot's explanation in its
    /// own queue — so a restricted login is invisible to everyone else.
    pub fn announce_login(&mut self, idx: usize, rank: i32)
        requires
            old(self).wf(),
            idx < old(self).presences@.len(),
            encode_utf8(old(self).presences@[idx as int].username@).len() < 0x1000_0000,
        ensures
            final(self).wf(),
            final(self).presences@.len() == old(self).presences@.len(),
            ({
                let p = old(self).presences@[idx as int];
                &&& (spec_is_restricted(p.permissions, p.flags) ==> (forall|j: int|
                    0 <= j < old(self).presences@.len() && j != idx ==> final(self).presences@[j]
                        == old(self).presences@[j]) && final(self).presences@[idx as int]
                    == (Presence {
                    queue: final(self).presences@[idx as int].queue,
                    ..p
                }) && final(self).presences@[idx as int].queue@ == p.queue@
                    + packets::spec_send_message("Mio"@, restricted_notice(), p.username@, 1))
                &&& (!spec_is_restricted(p.permissions, p.flags) ==> forall|j: int|
                    0 <= j < old(self).presences@.len() ==> #[trigger] login_broadcast_effect(
                        old(self).presences@[j],
                        final(self).presences@[j],
                        p.user_id,
                        packets::spec_user_presence(
                            p.user_id,
                            p.username@,
                            spec_offset_byte(p.time_offset),
                            p.country,
                            0,
                            p.longitude_bits,
                            p.latitude_bits,
                            rank,
                        ),
                    ))
            }),
    {
        let p = &self.presences[idx];
        let restricted = (p.permissions & 8) > 0 && (p.flags & 32) == 0;
        if restricted {
            let notice = restricted_notice_str();
            let m = packets::BanchoMessage {
                sender: String::from_str("Mio"),
                content: String::from_str(notice),
                target: p.username.clone(),
                sender_id: 1,
            };
            proof {
                lemma_notice_ascii();
                reveal_strlit("Mio");
                vstd::utf8::is_ascii_chars_encode_utf8("Mio"@);
                assert(vstd::utf8::is_ascii_chars("Mio"@));
            }
            let packet = packets::send_message(&m);
            self.enqueue_to(idx, &packet);
        } else {
            let off = offset_byte(p.time_offset);
            let packet = packets::user_presence(
                p.user_id,
                p.username.as_str(),
                off,
                p.country,
                0,
                p.longitude_bits,
                p.latitude_bits,
                rank,
            );
            let skip_user = p.user_id;
            let mut j: usize = 0;
            while j < self.presences.len()
                invariant
                    self.wf(),
                    j <= self.presences@.len(),
                    self.presences@.len() == old(self).presences@.len(),
                    idx < old(self).presences@.len(),
                    old(self).presences@[idx as int].user_id == skip_user,
                    forall|k2: int|
                        j <= k2 < old(self).presences@.len() ==> self.presences@[k2] == old(
                            self,
                        ).presences@[k2],
                    forall|k2: int|
                        0 <= k2 < j ==> #[trigger] login_broadcast_effect(
                            old(self).presences@[k2],
                            self.presences@[k2],
                            skip_user,
                            packet@,
                        ),
            decreases self.presences@.len() - j,
            {
                proof {
                    if j != idx && self.presences@[j as int].user_id == skip_user {
                        assert(self.presences@[idx as int].user_id == skip_user) by {
                            if (idx as int) < j as int {
                                assert(login_broadcast_effect(
                                    old(self).presences@[idx as int],
                                    self.presences@[idx as int],
                                    skip_user,
                                    packet@,
                                ));
                            } else {
                                assert(self.presences@[idx as int] == old(
                                    self,
                                ).presences@[idx as int]);
                            }
                        }
                        assert(self.presences@[j as int].user_id != self.presences@[
                            idx as int
                        ].user_id);
                        assert(false);
                    }
                }
                if j != idx && self.presences[j].user_id != 1 {
                    self.enqueue_to(j, &packet);
                }
                j = j + 1;
            }
        }
    }
}

/// How the login broadcast changes one session: the freshly logged-in
/// session itself and the bot stay put, everyone else's queue gains the
/// presence packet.
pub open spec fn login_broadcast_effect(before: Presence, after: Presence, self_id: i32, bytes: Seq<u8>) -> bool {
    &&& after == (Presence { queue: after.queue, ..before })
    &&& ((before.user_id == self_id || before.user_id == 1) ==> after.queue@ == before.queue@)
    &&& ((before.user_id != self_id && before.user_id != 1) ==> after.queue@ == before.queue@
        + bytes)
}

/// The wire byte of a client's UTC offset: shifted by 24, clamped to the
/// byte range.
pub open spec fn spec_offset_byte(t: i8) -> u8 {
    if t + 24 < 0 {
        0u8
    } else {
        (t + 24) as u8
    }
}

pub fn offset_byte(t: i8) -> (r: u8)
    ensures
        r == spec_offset_byte(t),
{
    let wide: i32 = t as i32 + 24;
    if wide < 0 {
        0
    } else {
        wide as u8
    }
}

/// The explanation a restricted login receives from the bot.
pub open spec fn restricted_notice() -> Seq<char> {
    "Your account currently in restricted state, more details you can get from \"Account standing\" page on the website."@
}

fn restricted_notice_str() -> (r: &'static str)
    ensures
        r@ == restricted_notice(),
{
    "Your account currently in restricted state, more details you can get from \"Account standing\" page on the website."
}

/// The notice is plain ASCII, so its UTF-8 form is one byte per character.
proof fn lemma_notice_ascii()
    ensures
        encode_utf8(restricted_notice()).len() < 0x1000_0000,
{
    reveal_strlit(
        "Your account currently in restricted state, more details you can get from \"Account standing\" page on the website.",
    );
    vstd::utf8::is_ascii_chars_encode_utf8(restricted_notice());
    assert(vstd::utf8::is_ascii_chars(restricted_notice()));
}

/// Copy of a session's watcher list.
fn copy_spectators(p: &Presence) -> (r: Vec<i32>)
    ensures
        r@ == p.spectators@,
{
    let mut out: Vec<i32> = Vec::new();
    let mut i: usize = 0;
    while i < p.spectators.len()
        invariant
            i <= p.spectators@.len(),
            out@ =~= p.spectators@.subrange(0, i as int),
        decreases p.spectators@.len() - i,
    {
        out.push(p.spectators[i]);
        proof {
            assert(out@ =~= p.spectators@.subrange(0, i + 1));
        }
        i = i + 1;
    }
    proof {
        assert(p.spectators@.subrange(0, p.spectators@.len() as int) =~= p.spectators@);
    }
    out
}

} // verus!
