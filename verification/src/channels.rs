//! Chat channels: membership sets, the idempotent join and the leave, and
//! the routing decisions for public and private messages.

use vstd::prelude::*;
use vstd::utf8::encode_utf8;
use crate::packets;

verus! {

/// A named chat room. Membership is a duplicate-free list of user ids.
#[derive(Debug)]
pub struct Channel {
    pub id: i32,
    pub name: String,
    pub channel_type: String,
    pub description: String,
    pub users: Vec<i32>,
}

/// Membership after a join: unchanged when already present, extended
/// otherwise.
pub open spec fn spec_join(users: Seq<i32>, user_id: i32) -> Seq<i32> {
    if users.contains(user_id) {
        users
    } else {
        users.push(user_id)
    }
}

/// Membership after a leave: every occurrence of the user is gone, the
/// rest keep their order.
pub open spec fn spec_part(users: Seq<i32>, user_id: i32) -> Seq<i32>
    decreases users.len(),
{
    if users.len() == 0 {
        Seq::empty()
    } else if users[0] == user_id {
        spec_part(users.drop_first(), user_id)
    } else {
        seq![users[0]] + spec_part(users.drop_first(), user_id)
    }
}

/// Membership after a leave is membership before it, minus the user.
pub proof fn lemma_part_contains(users: Seq<i32>, user_id: i32)
    ensures
        forall|x: i32|
            #[trigger] spec_part(users, user_id).contains(x) <==> (users.contains(x) && x
                != user_id),
    decreases users.len(),
{
    broadcast use vstd::seq_lib::group_seq_properties;

    if users.len() > 0 {
        let rest = users.drop_first();
        lemma_part_contains(rest, user_id);
        assert(users =~= seq![users[0]] + rest);
        assert forall|x: i32|
            #[trigger] spec_part(users, user_id).contains(x) <==> (users.contains(x) && x
                != user_id) by {
            assert((seq![users[0]] + rest).contains(x) <==> (seq![users[0]].contains(x)
                || rest.contains(x)));
            assert(seq![users[0]].contains(x) <==> x == users[0]);
            if users[0] != user_id {
                assert(spec_part(users, user_id) == seq![users[0]] + spec_part(rest, user_id));
                assert((seq![users[0]] + spec_part(rest, user_id)).contains(x) <==> (seq![
                    users[0],
                ].contains(x) || spec_part(rest, user_id).contains(x)));
            }
        }
    }
}

/// Nobody is a member after leaving.
pub proof fn lemma_part_removes(users: Seq<i32>, user_id: i32)
    ensures
        !spec_part(users, user_id).contains(user_id),
        forall|x: i32| x != user_id ==> spec_part(users, user_id).contains(x) == users.contains(x),
{
    lemma_part_contains(users, user_id);
}

/// Channel join is idempotent at the membership level: a second join
/// changes nothing, and one leave afterwards takes the user out.
pub proof fn lemma_join_idempotent(users: Seq<i32>, user_id: i32)
    ensures
        spec_join(spec_join(users, user_id), user_id) == spec_join(users, user_id),
        !spec_part(spec_join(spec_join(users, user_id), user_id), user_id).contains(user_id),
{
    assert(spec_join(users, user_id).contains(user_id)) by {
        if !users.contains(user_id) {
            assert(users.push(user_id)[users.len() as int] == user_id);
        }
    }
    lemma_part_removes(spec_join(spec_join(users, user_id), user_id), user_id);
}

impl Channel {
    /// Membership has no duplicates.
    pub open spec fn wf(&self) -> bool {
        forall|i: int, j: int| 0 <= i < j < self.users@.len() ==> self.users@[i] != self.users@[j]
    }

    pub fn is_member(&self, user_id: i32) -> (r: bool)
        ensures
            r == self.users@.contains(user_id),
    {
        let mut i: usize = 0;
        while i < self.users.len()
            invariant
                i <= self.users@.len(),
                forall|j: int| 0 <= j < i ==> self.users@[j] != user_id,
            decreases self.users@.len() - i,
        {
            if self.users[i] == user_id {
                return true;
            }
            i = i + 1;
        }
        false
    }

    /// Join: a repeat join leaves the membership as it was. The join
    /// acknowledgement is sent even on a repeat, because clients sometimes
    /// drop their channel state.
    pub fn join(&mut self, user_id: i32)
        ensures
            *final(self) == (Channel { users: final(self).users, ..*old(self) }),
            final(self).users@ == spec_join(old(self).users@, user_id),
            old(self).wf() ==> final(self).wf(),
    {
        if !self.is_member(user_id) {
            self.users.push(user_id);
            proof {
                if old(self).wf() {
                    assert forall|i: int, j: int|
                        0 <= i < j < self.users@.len() implies self.users@[i] != self.users@[j] by {
                        if j == self.users@.len() - 1 {
                            assert(self.users@[i] == old(self).users@[i]);
                            assert(!old(self).users@.contains(user_id));
                        }
                    }
                }
            }
        }
    }

    /// Leave: the user is removed from the membership.
    pub fn part(&mut self, user_id: i32)
        ensures
            *final(self) == (Channel { users: final(self).users, ..*old(self) }),
            final(self).users@ == spec_part(old(self).users@, user_id),
            old(self).wf() ==> final(self).wf(),
            !final(self).users@.contains(user_id),
    {
        let mut kept: Vec<i32> = Vec::new();
        let mut i: usize = 0;
        proof {
            assert(self.users@.skip(0) =~= self.users@);
        }
        while i < self.users.len()
            invariant
                i <= self.users@.len(),
                kept@ + spec_part(self.users@.skip(i as int), user_id) =~= spec_part(
                    self.users@,
                    user_id,
                ),
            decreases self.users@.len() - i,
        {
            proof {
                assert(self.users@.skip(i as int).drop_first() =~= self.users@.skip(i + 1));
                assert(self.users@.skip(i as int)[0] == self.users@[i as int]);
            }
            if self.users[i] != user_id {
                kept.push(self.users[i]);
            }
            proof {
                assert(kept@ + spec_part(self.users@.skip(i + 1), user_id) =~= spec_part(
                    self.users@,
                    user_id,
                ));
            }
            i = i + 1;
        }
        proof {
            assert(self.users@.skip(self.users@.len() as int) =~= Seq::<i32>::empty());
            assert(kept@ =~= spec_part(self.users@, user_id));
            lemma_part_removes(self.users@, user_id);
            if old(self).wf() {
                lemma_part_preserves_nodup(self.users@, user_id);
            }
        }
        self.users = kept;
    }
}

pub proof fn lemma_part_preserves_nodup(users: Seq<i32>, user_id: i32)
    requires
        forall|i: int, j: int| 0 <= i < j < users.len() ==> users[i] != users[j],
    ensures
        forall|i: int, j: int|
            0 <= i < j < spec_part(users, user_id).len() ==> spec_part(users, user_id)[i]
                != spec_part(users, user_id)[j],
    decreases users.len(),
{
    broadcast use vstd::seq_lib::group_seq_properties;

    if users.len() > 0 {
        let rest = users.drop_first();
        assert(forall|i: int, j: int| 0 <= i < j < rest.len() ==> rest[i] != rest[j]);
        lemma_part_preserves_nodup(rest, user_id);
        if users[0] != user_id {
            let h = users[0];
            let p = spec_part(users, user_id);
            let rp = spec_part(rest, user_id);
            lemma_part_contains(rest, user_id);
            assert(!rest.contains(h)) by {
                if rest.contains(h) {
                    let k = choose|k: int| 0 <= k < rest.len() && rest[k] == h;
                    assert(users[k + 1] == h);
                }
            }
            assert forall|i: int, j: int| 0 <= i < j < p.len() implies p[i] != p[j] by {
                if i == 0 {
                    assert(p[j] == rp[j - 1]);
                    assert(rp.contains(rp[j - 1]));
                } else {
                    assert(p[i] == rp[i - 1] && p[j] == rp[j - 1]);
                }
            }
        }
    }
}

/// The set of channels, looked up by name.
pub struct ChannelManager {
    pub channels: Vec<Channel>,
}

impl ChannelManager {
    pub open spec fn wf(&self) -> bool {
        forall|i: int| 0 <= i < self.channels@.len() ==> (#[trigger] self.channels@[i]).wf()
    }

    pub fn new() -> (r: ChannelManager)
        ensures
            r.wf(),
            r.channels@.len() == 0,
    {
        ChannelManager { channels: Vec::new() }
    }

    pub fn find_by_name(&self, name: &String) -> (r: Option<usize>)
        ensures
            r matches Some(i) ==> i < self.channels@.len() && self.channels@[i as int].name@
                == name@,
            r is None ==> forall|i: int|
                0 <= i < self.channels@.len() ==> (#[trigger] self.channels@[i]).name@ != name@,
            r is Some <==> (exists|i: int|
                0 <= i < self.channels@.len() && (#[trigger] self.channels@[i]).name@ == name@),
    {
        let mut i: usize = 0;
        while i < self.channels.len()
            invariant
                i <= self.channels@.len(),
                forall|j: int| 0 <= j < i ==> (#[trigger] self.channels@[j]).name@ != name@,
            decreases self.channels@.len() - i,
        {
            if self.channels[i].name.eq(name) {
                return Some(i);
            }
            i = i + 1;
        }
        None
    }

    /// Create a temporary private channel under this name if none exists:
    /// an existing channel of the name leaves everything as it was, and a
    /// created one starts empty, of the temporary private kind; no other
    /// channel moves either way.
    pub fn create_private_channel(&mut self, id: i32, name: &String)
        ensures
            old(self).wf() ==> final(self).wf(),
            exists|i: int|
                0 <= i < final(self).channels@.len() && (#[trigger] final(self).channels@[i]).name@
                    == name@,
            (exists|i: int|
                0 <= i < old(self).channels@.len() && (#[trigger] old(self).channels@[i]).name@
                    == name@) ==> *final(self) == *old(self),
            !(exists|i: int|
                0 <= i < old(self).channels@.len() && (#[trigger] old(self).channels@[i]).name@
                    == name@) ==> final(self).channels@.len() == old(self).channels@.len() + 1
                && (forall|i: int|
                0 <= i < old(self).channels@.len() ==> final(self).channels@[i] == old(
                    self,
                ).channels@[i]) && final(self).channels@.last().id == id && final(self).channels@.last().name@ == name@ && final(self).channels@.last().channel_type@
                == "private_temp"@ && final(self).channels@.last().users@ == Seq::<i32>::empty(),
    {
        match self.find_by_name(name) {
            Some(i) => {
                proof {
                    assert(self.channels@[i as int].name@ == name@);
                }
            },
            None => {
                let c = Channel {
                    id,
                    name: name.clone(),
                    channel_type: String::from_str("private_temp"),
                    description: String::from_str("Temp channel"),
                    users: Vec::new(),
                };
                self.channels.push(c);
                proof {
                    assert(self.channels@[self.channels@.len() - 1].name@ == name@);
                    if old(self).wf() {
                        assert forall|i: int|
                            0 <= i < self.channels@.len() implies (
                        #[trigger] self.channels@[i]).wf() by {
                            if i < self.channels@.len() - 1 {
                                assert(self.channels@[i] == old(self).channels@[i]);
                            }
                        }
                    }
                }
            },
        }
    }

    /// Remove a user from every channel's membership, as a logout must.
    pub fn remove_user_everywhere(&mut self, user_id: i32)
        ensures
            final(self).channels@.len() == old(self).channels@.len(),
            forall|c: int|
                0 <= c < old(self).channels@.len() ==> #[trigger] channel_part_effect(
                    old(self).channels@[c],
                    final(self).channels@[c],
                    user_id,
                ),
            old(self).wf() ==> final(self).wf(),
    {
        let mut c: usize = 0;
        while c < self.channels.len()
            invariant
                c <= self.channels@.len(),
                self.channels@.len() == old(self).channels@.len(),
                forall|k: int|
                    c <= k < old(self).channels@.len() ==> self.channels@[k] == old(
                        self,
                    ).channels@[k],
                forall|k: int|
                    0 <= k < c ==> #[trigger] channel_part_effect(
                        old(self).channels@[k],
                        self.channels@[k],
                        user_id,
                    ),
            decreases self.channels@.len() - c,
        {
            let ghost snap = self.channels@;
            let mut chan = self.channels.remove(c);
            chan.part(user_id);
            self.channels.insert(c, chan);
            proof {
                assert(self.channels@ =~= snap.update(c as int, self.channels@[c as int]));
                assert(channel_part_effect(
                    old(self).channels@[c as int],
                    self.channels@[c as int],
                    user_id,
                ));
            }
            c = c + 1;
        }
        proof {
            if old(self).wf() {
                assert forall|i: int|
                    0 <= i < self.channels@.len() implies (#[trigger] self.channels@[i]).wf() by {
                    assert(channel_part_effect(
                        old(self).channels@[i],
                        self.channels@[i],
                        user_id,
                    ));
                    assert(old(self).channels@[i].wf());
                    lemma_part_preserves_nodup(old(self).channels@[i].users@, user_id);
                }
            }
        }
    }
}

/// How a logout changes one channel: only the membership moves, and the
/// leaving user is gone from it.
pub open spec fn channel_part_effect(before: Channel, after: Channel, user_id: i32) -> bool {
    &&& after == (Channel { users: after.users, ..before })
    &&& after.users@ == spec_part(before.users@, user_id)
}

impl ChannelManager {
    /// Join the channel at this index, returning the acknowledgement packet
    /// to queue for the client.
    pub fn join_channel_at(&mut self, idx: usize, user_id: i32) -> (sent: Vec<u8>)
        requires
            idx < old(self).channels@.len(),
            encode_utf8(old(self).channels@[idx as int].name@).len() < 0x1000_0000,
        ensures
            final(self).channels@.len() == old(self).channels@.len(),
            forall|j: int|
                0 <= j < old(self).channels@.len() && j != idx ==> final(self).channels@[j] == old(
                    self,
                ).channels@[j],
            final(self).channels@[idx as int] == (Channel {
                users: final(self).channels@[idx as int].users,
                ..old(self).channels@[idx as int]
            }),
            final(self).channels@[idx as int].users@ == spec_join(
                old(self).channels@[idx as int].users@,
                user_id,
            ),
            sent@ == packets::spec_channel_join(old(self).channels@[idx as int].name@),
            old(self).wf() ==> final(self).wf(),
    {
        let mut c = self.channels.remove(idx);
        c.join(user_id);
        let sent = packets::channel_join(c.name.as_str());
        self.channels.insert(idx, c);
        proof {
            assert(self.channels@ =~= old(self).channels@.update(
                idx as int,
                self.channels@[idx as int],
            ));
        }
        sent
    }

    /// Leave the channel at this index, returning the kick packet to queue.
    pub fn part_channel_at(&mut self, idx: usize, user_id: i32) -> (sent: Vec<u8>)
        requires
            idx < old(self).channels@.len(),
            encode_utf8(old(self).channels@[idx as int].name@).len() < 0x1000_0000,
        ensures
            final(self).channels@.len() == old(self).channels@.len(),
            forall|j: int|
                0 <= j < old(self).channels@.len() && j != idx ==> final(self).channels@[j] == old(
                    self,
                ).channels@[j],
            final(self).channels@[idx as int] == (Channel {
                users: final(self).channels@[idx as int].users,
                ..old(self).channels@[idx as int]
            }),
            final(self).channels@[idx as int].users@ == spec_part(
                old(self).channels@[idx as int].users@,
                user_id,
            ),
            !final(self).channels@[idx as int].users@.contains(user_id),
            sent@ == packets::spec_channel_kick(old(self).channels@[idx as int].name@),
            old(self).wf() ==> final(self).wf(),
    {
        let mut c = self.channels.remove(idx);
        c.part(user_id);
        let sent = packets::channel_kick(c.name.as_str());
        self.channels.insert(idx, c);
        proof {
            assert(self.channels@ =~= old(self).channels@.update(
                idx as int,
                self.channels@[idx as int],
            ));
        }
        sent
    }
}

/// The channel-info packets of the public channels, in listing order, as
/// a fresh login receives them before the list terminator.
pub open spec fn spec_channel_listing(channels: Seq<Channel>) -> Seq<u8>
    decreases channels.len(),
{
    if channels.len() == 0 {
        Seq::empty()
    } else {
        (if channels[0].channel_type@ == "public"@ && channels[0].users@.len() < 0x1_0000 {
            packets::spec_channel_info(
                channels[0].name@,
                channels[0].description@,
                channels[0].users@.len() as u16,
            )
        } else {
            Seq::<u8>::empty()
        }) + spec_channel_listing(channels.drop_first())
    }
}

impl ChannelManager {
    /// Build the channel listing for a fresh login.
    pub fn channel_listing(&self) -> (r: Vec<u8>)
        requires
            forall|i: int|
                0 <= i < self.channels@.len() ==> encode_utf8(
                    (#[trigger] self.channels@[i]).name@,
                ).len() < 0x1000_0000 && encode_utf8(self.channels@[i].description@).len()
                    < 0x1000_0000,
        ensures
            r@ == spec_channel_listing(self.channels@),
    {
        let mut out: Vec<u8> = Vec::new();
        let public = String::from_str("public");
        let mut i: usize = 0;
        proof {
            assert(self.channels@.skip(0) =~= self.channels@);
        }
        while i < self.channels.len()
            invariant
                i <= self.channels@.len(),
                public@ == "public"@,
                forall|j: int|
                    0 <= j < self.channels@.len() ==> encode_utf8(
                        (#[trigger] self.channels@[j]).name@,
                    ).len() < 0x1000_0000 && encode_utf8(self.channels@[j].description@).len()
                        < 0x1000_0000,
                out@ + spec_channel_listing(self.channels@.skip(i as int)) =~= spec_channel_listing(
                    self.channels@,
                ),
            decreases self.channels@.len() - i,
        {
            proof {
                assert(self.channels@.skip(i as int).drop_first() =~= self.channels@.skip(i + 1));
                assert(self.channels@.skip(i as int)[0] == self.channels@[i as int]);
            }
            if self.channels[i].channel_type.eq(&public) && self.channels[i].users.len() < 0x1_0000
            {
                let packet = packets::channel_info(
                    self.channels[i].name.as_str(),
                    self.channels[i].description.as_str(),
                    self.channels[i].users.len() as u16,
                );
                let mut k: usize = 0;
                let ghost pre = out@;
                while k < packet.len()
                    invariant
                        k <= packet@.len(),
                        out@ =~= pre + packet@.subrange(0, k as int),
                    decreases packet@.len() - k,
                {
                    out.push(packet[k]);
                    proof {
                        assert(out@ =~= pre + packet@.subrange(0, k + 1));
                    }
                    k = k + 1;
                }
                proof {
                    assert(packet@.subrange(0, packet@.len() as int) =~= packet@);
                }
            }
            proof {
                assert(out@ + spec_channel_listing(self.channels@.skip(i + 1))
                    =~= spec_channel_listing(self.channels@));
            }
            i = i + 1;
        }
        proof {
            assert(self.channels@.skip(self.channels@.len() as int) =~= Seq::<Channel>::empty());
            assert(out@ =~= spec_channel_listing(self.channels@));
        }
        out
    }
}

/// Why a public message is dropped instead of delivered.
#[derive(Debug, Clone, Copy, PartialEq, Eq, Structural)]
pub enum RouteRejection {
    SenderRestricted,
    NoSuchChannel,
    NotAMember,
}

/// Who receives a public message: every member of the channel except the
/// sender. The sender must be a member, unless it is the bot; restricted
/// senders are dropped.
pub open spec fn spec_route_public(
    members: Option<Seq<i32>>,
    sender_id: i32,
    sender_restricted: bool,
) -> Result<Seq<i32>, RouteRejection> {
    if sender_restricted {
        Err(RouteRejection::SenderRestricted)
    } else if members is None {
        Err(RouteRejection::NoSuchChannel)
    } else if !members->Some_0.contains(sender_id) && sender_id != 1 {
        Err(RouteRejection::NotAMember)
    } else {
        Ok(spec_part(members->Some_0, sender_id))
    }
}

/// Decide the recipients of a public message in the channel at `idx`.
pub fn route_public_message(
    manager: &ChannelManager,
    idx: Option<usize>,
    sender_id: i32,
    sender_restricted: bool,
) -> (r: Result<Vec<i32>, RouteRejection>)
    requires
        idx matches Some(i) ==> i < manager.channels@.len(),
    ensures
        ({
            let members = match idx {
                Some(i) => Some(manager.channels@[i as int].users@),
                None => None,
            };
            match r {
                Ok(v) => spec_route_public(members, sender_id, sender_restricted) == Ok::<
                    Seq<i32>,
                    RouteRejection,
                >(v@),
                Err(e) => spec_route_public(members, sender_id, sender_restricted) == Err::<
                    Seq<i32>,
                    RouteRejection,
                >(e),
            }
        }),
{
    if sender_restricted {
        return Err(RouteRejection::SenderRestricted);
    }
    match idx {
        None => Err(RouteRejection::NoSuchChannel),
        Some(i) => {
            if !manager.channels[i].is_member(sender_id) && sender_id != 1 {
                return Err(RouteRejection::NotAMember);
            }
            let mut recipients: Vec<i32> = Vec::new();
            let users = &manager.channels[i].users;
            let mut k: usize = 0;
            proof {
                assert(users@.skip(0) =~= users@);
            }
            while k < users.len()
                invariant
                    k <= users@.len(),
                    recipients@ + spec_part(users@.skip(k as int), sender_id) =~= spec_part(
                        users@,
                        sender_id,
                    ),
                decreases users@.len() - k,
            {
                proof {
                    assert(users@.skip(k as int).drop_first() =~= users@.skip(k + 1));
                    assert(users@.skip(k as int)[0] == users@[k as int]);
                }
                if users[k] != sender_id {
                    recipients.push(users[k]);
                }
                proof {
                    assert(recipients@ + spec_part(users@.skip(k + 1), sender_id) =~= spec_part(
                        users@,
                        sender_id,
                    ));
                }
                k = k + 1;
            }
            proof {
                assert(users@.skip(users@.len() as int) =~= Seq::<i32>::empty());
                assert(recipients@ =~= spec_part(users@, sender_id));
            }
            Ok(recipients)
        },
    }
}

/// The digit character for a value below ten.
pub open spec fn digit_char(d: nat) -> char {
    if d == 0 {
        '0'
    } else if d == 1 {
        '1'
    } else if d == 2 {
        '2'
    } else if d == 3 {
        '3'
    } else if d == 4 {
        '4'
    } else if d == 5 {
        '5'
    } else if d == 6 {
        '6'
    } else if d == 7 {
        '7'
    } else if d == 8 {
        '8'
    } else {
        '9'
    }
}

/// The decimal rendering of a number as characters.
pub open spec fn dec_chars(n: nat) -> Seq<char>
    decreases n,
{
    if n < 10 {
        seq![digit_char(n)]
    } else {
        dec_chars(n / 10) + seq![digit_char(n % 10)]
    }
}

/// Append the decimal rendering of a value to a string.
pub fn append_dec(s: &mut String, v: u64)
    ensures
        final(s)@ == old(s)@ + dec_chars(v as nat),
    decreases v,
{
    if v >= 10 {
        append_dec(s, v / 10);
    }
    let d = match v % 10 {
        0 => "0",
        1 => "1",
        2 => "2",
        3 => "3",
        4 => "4",
        5 => "5",
        6 => "6",
        7 => "7",
        8 => "8",
        _ => "9",
    };
    proof {
        reveal_strlit("0");
        reveal_strlit("1");
        reveal_strlit("2");
        reveal_strlit("3");
        reveal_strlit("4");
        reveal_strlit("5");
        reveal_strlit("6");
        reveal_strlit("7");
        reveal_strlit("8");
        reveal_strlit("9");
    }
    s.append(d);
    proof {
        assert(s@ =~= old(s)@ + dec_chars(v as nat));
    }
}

/// The dynamic spectator room of a host: "#spec_" followed by the host's
/// user id.
pub open spec fn spec_spectator_channel_name(host_id: i32) -> Seq<char> {
    "#spec_"@ + dec_chars(host_id as nat)
}

pub fn spectator_channel_name(host_id: i32) -> (r: String)
    requires
        host_id >= 0,
    ensures
        r@ == spec_spectator_channel_name(host_id),
{
    let mut s = String::from_str("#spec_");
    append_dec(&mut s, host_id as u64);
    s
}

/// Rewrite the "#spectator" alias to the concrete room: a watcher speaks in
/// the room of the host being watched; a host with watchers speaks in its
/// own room; anyone else keeps the target unchanged.
pub fn resolve_public_target(
    target: &String,
    self_id: i32,
    spectating: &Option<i32>,
    has_spectators: bool,
) -> (r: String)
    requires
        self_id >= 0,
        spectating matches Some(h) ==> h >= 0,
    ensures
        target@ != "#spectator"@ ==> r@ == target@,
        target@ == "#spectator"@ && has_spectators ==> r@ == spec_spectator_channel_name(self_id),
        target@ == "#spectator"@ && !has_spectators ==> match spectating {
            Some(h) => r@ == spec_spectator_channel_name(*h),
            None => r@ == target@,
        },
    {
    let alias = String::from_str("#spectator");
    if !target.eq(&alias) {
        return target.clone();
    }
    if has_spectators {
        return spectator_channel_name(self_id);
    }
    match spectating {
        Some(h) => spectator_channel_name(*h),
        None => target.clone(),
    }
}

} // verus!
