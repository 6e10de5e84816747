//! The match-lobby update frame: the settings record a client sends when
//! it changes a multiplayer room. The reader consumes exactly the encoding
//! of what it returns, so every field of the result is pinned to the wire
//! bytes; slots carry a player id only while occupied, and per-slot mods
//! travel only under free-mods.

use vstd::prelude::*;
use vstd::utf8::encode_utf8;
use crate::packets::{
    enc_str, i32_bits, le_bytes, prefix_at, read_i32, read_str, read_u32, read_u8, read_u16,
};

verus! {

/// The bit pattern of an `i8`, as its wire byte encodes it.
pub open spec fn i8_bits(v: i8) -> nat {
    if v >= 0 {
        v as nat
    } else {
        (v + 0x100) as nat
    }
}

/// A slot holds a player exactly when it is neither open (1) nor locked
/// (2).
pub open spec fn slot_occupied(status: u8) -> bool {
    status != 1 && status != 2
}

/// How many of the slots hold a player.
pub open spec fn count_occupied(statuses: Seq<u8>) -> int
    decreases statuses.len(),
{
    if statuses.len() == 0 {
        0
    } else {
        (if slot_occupied(statuses[0]) {
            1int
        } else {
            0
        }) + count_occupied(statuses.drop_first())
    }
}

/// The player ids on the wire: one `i32` per occupied slot, in slot order.
pub open spec fn enc_players(statuses: Seq<u8>, players: Seq<i32>) -> Seq<u8>
    decreases statuses.len(),
{
    if statuses.len() == 0 {
        Seq::empty()
    } else if slot_occupied(statuses[0]) {
        if players.len() == 0 {
            Seq::empty()
        } else {
            le_bytes(i32_bits(players[0]), 4) + enc_players(
                statuses.drop_first(),
                players.drop_first(),
            )
        }
    } else {
        enc_players(statuses.drop_first(), players)
    }
}

/// Raw per-slot mods: one `u32` each.
pub open spec fn enc_u32_items(l: Seq<u32>) -> Seq<u8>
    decreases l.len(),
{
    if l.len() == 0 {
        Seq::empty()
    } else {
        le_bytes(l[0] as nat, 4) + enc_u32_items(l.drop_first())
    }
}

/// A match-settings record as the lobby frame carries it.
#[derive(Debug)]
pub struct MatchUpdateData {
    pub match_id: u16,
    pub in_progress: bool,
    pub match_type: i8,
    pub play_mods: u32,
    pub match_name: String,
    pub password: String,
    pub beatmap_name: String,
    pub beatmap_id: i32,
    pub beatmap_md5: String,
    /// Exactly sixteen slot statuses.
    pub slot_status: Vec<u8>,
    /// Exactly sixteen slot teams.
    pub slot_teams: Vec<u8>,
    /// One player id per occupied slot, in slot order.
    pub slot_players: Vec<i32>,
    pub host_player_id: i32,
    pub match_game_mode: u8,
    pub win_condition: u8,
    pub team_type: u8,
    pub freemods: bool,
    /// Sixteen per-slot mods under free-mods, none otherwise.
    pub player_mods: Vec<u32>,
    pub match_seed: i32,
}

impl MatchUpdateData {
    /// Structural fit of the variable-length parts.
    pub open spec fn wf(&self) -> bool {
        &&& self.slot_status@.len() == 16
        &&& self.slot_teams@.len() == 16
        &&& self.slot_players@.len() == count_occupied(self.slot_status@)
        &&& (self.freemods ==> self.player_mods@.len() == 16)
        &&& (!self.freemods ==> self.player_mods@.len() == 0)
    }

    /// The record's wire form.
    pub open spec fn enc(&self) -> Seq<u8> {
        le_bytes(self.match_id as nat, 2) + seq![if self.in_progress {
            1u8
        } else {
            0u8
        }] + seq![(i8_bits(self.match_type)) as u8] + le_bytes(self.play_mods as nat, 4) + enc_str(
            self.match_name@,
        ) + enc_str(self.password@) + enc_str(self.beatmap_name@) + le_bytes(
            i32_bits(self.beatmap_id),
            4,
        ) + enc_str(self.beatmap_md5@) + self.slot_status@ + self.slot_teams@ + enc_players(
            self.slot_status@,
            self.slot_players@,
        ) + le_bytes(i32_bits(self.host_player_id), 4) + seq![
            self.match_game_mode,
            self.win_condition,
            self.team_type,
            if self.freemods {
                1u8
            } else {
                0u8
            },
        ] + enc_u32_items(self.player_mods@) + le_bytes(i32_bits(self.match_seed), 4)
    }
}

/// Read a strict wire boolean: one byte, zero or one.
fn read_bool(data: &Vec<u8>, pos: usize) -> (r: Option<(bool, usize)>)
    ensures
        r matches Some((v, p)) ==> p == pos + 1 && p <= data@.len() && data@.subrange(
            pos as int,
            p as int,
        ) =~= seq![if v {
            1u8
        } else {
            0u8
        }],
{
    match read_u8(data, pos) {
        None => None,
        Some((b, p)) => {
            if b == 0 {
                Some((false, p))
            } else if b == 1 {
                Some((true, p))
            } else {
                None
            }
        },
    }
}

/// Read a signed byte.
fn read_i8(data: &Vec<u8>, pos: usize) -> (r: Option<(i8, usize)>)
    ensures
        r matches Some((v, p)) ==> p == pos + 1 && p <= data@.len() && data@.subrange(
            pos as int,
            p as int,
        ) =~= seq![(i8_bits(v)) as u8],
        r is None ==> pos + 1 > data@.len(),
{
    match read_u8(data, pos) {
        None => None,
        Some((b, p)) => {
            let v: i8 = if b <= 127 {
                b as i8
            } else {
                ((b as i16) - 0x100i16) as i8
            };
            proof {
                assert(i8_bits(v) == b as nat);
            }
            Some((v, p))
        },
    }
}

/// Read a run of raw bytes.
fn read_raw(data: &Vec<u8>, pos: usize, n: usize) -> (r: Option<(Vec<u8>, usize)>)
    ensures
        r matches Some((v, p)) ==> p == pos + n && p <= data@.len() && v@.len() == n
            && data@.subrange(pos as int, p as int) =~= v@,
        r is None ==> pos + n > data@.len(),
{
    if n > data.len() || pos > data.len() - n {
        return None;
    }
    let end = pos + n;
    let mut out: Vec<u8> = Vec::new();
    let mut i: usize = pos;
    while i < end
        invariant
            pos <= i <= end <= data@.len(),
            out@ =~= data@.subrange(pos as int, i as int),
        decreases end - i,
    {
        out.push(data[i]);
        proof {
            assert(out@ =~= data@.subrange(pos as int, i + 1));
        }
        i = i + 1;
    }
    Some((out, end))
}

/// Read the player ids the statuses call for.
fn read_players(data: &Vec<u8>, pos: usize, statuses: &Vec<u8>) -> (r: Option<(Vec<i32>, usize)>)
    requires
        pos <= data@.len(),
    ensures
        r matches Some((v, p)) ==> pos <= p <= data@.len() && v@.len() == count_occupied(statuses@)
            && data@.subrange(pos as int, p as int) =~= enc_players(statuses@, v@),
{
    let mut out: Vec<i32> = Vec::new();
    let mut p: usize = pos;
    let mut k: usize = 0;
    proof {
        assert(statuses@.subrange(0, 0) =~= Seq::<u8>::empty());
        assert(data@.subrange(pos as int, pos as int) =~= Seq::<u8>::empty());
        assert(enc_players(Seq::<u8>::empty(), Seq::<i32>::empty()) =~= Seq::<u8>::empty());
    }
    while k < statuses.len()
        invariant
            k <= statuses@.len(),
            pos <= p <= data@.len(),
            out@.len() == count_occupied(statuses@.subrange(0, k as int)),
            data@.subrange(pos as int, p as int) =~= enc_players(
                statuses@.subrange(0, k as int),
                out@,
            ),
        decreases statuses@.len() - k,
    {
        proof {
            assert(statuses@.subrange(0, k + 1) =~= statuses@.subrange(0, k as int).push(
                statuses@[k as int],
            ));
        }
        if statuses[k] != 1 && statuses[k] != 2 {
            match read_i32(data, p) {
                None => {
                    return None;
                },
                Some((v, p2)) => {
                    proof {
                        lemma_players_snoc_occupied(
                            statuses@.subrange(0, k as int),
                            out@,
                            statuses@[k as int],
                            v,
                        );
                        assert(data@.subrange(pos as int, p2 as int) =~= data@.subrange(
                            pos as int,
                            p as int,
                        ) + data@.subrange(p as int, p2 as int));
                    }
                    out.push(v);
                    p = p2;
                },
            }
        } else {
            proof {
                lemma_players_snoc_empty(
                    statuses@.subrange(0, k as int),
                    out@,
                    statuses@[k as int],
                );
            }
        }
        k = k + 1;
    }
    proof {
        assert(statuses@.subrange(0, statuses@.len() as int) =~= statuses@);
    }
    Some((out, p))
}

/// Appending an occupied status consumes one more player id.
proof fn lemma_players_snoc_occupied(statuses: Seq<u8>, players: Seq<i32>, st: u8, v: i32)
    requires
        slot_occupied(st),
        players.len() == count_occupied(statuses),
    ensures
        count_occupied(statuses.push(st)) == count_occupied(statuses) + 1,
        enc_players(statuses.push(st), players.push(v)) =~= enc_players(statuses, players)
            + le_bytes(i32_bits(v), 4),
    decreases statuses.len(),
{
    reveal_with_fuel(count_occupied, 3);
    reveal_with_fuel(enc_players, 3);
    if statuses.len() == 0 {
        assert(statuses.push(st)[0] == st);
        assert(players.push(v)[0] == v);
        assert(statuses.push(st).drop_first() =~= Seq::<u8>::empty());
        assert(players.push(v).drop_first() =~= Seq::<i32>::empty());
    } else {
        assert(statuses.push(st)[0] == statuses[0]);
        assert(statuses.push(st).drop_first() =~= statuses.drop_first().push(st));
        if slot_occupied(statuses[0]) {
            assert(players.len() > 0) by {
                assert(count_occupied(statuses) >= 1) by {
                    lemma_count_occupied_nonneg(statuses.drop_first());
                }
            }
            assert(players.push(v)[0] == players[0]);
            assert(players.push(v).drop_first() =~= players.drop_first().push(v));
            lemma_players_snoc_occupied(statuses.drop_first(), players.drop_first(), st, v);
        } else {
            lemma_players_snoc_occupied(statuses.drop_first(), players, st, v);
        }
    }
}

/// Appending an unoccupied status consumes nothing.
proof fn lemma_players_snoc_empty(statuses: Seq<u8>, players: Seq<i32>, st: u8)
    requires
        !slot_occupied(st),
        players.len() == count_occupied(statuses),
    ensures
        count_occupied(statuses.push(st)) == count_occupied(statuses),
        enc_players(statuses.push(st), players) =~= enc_players(statuses, players),
    decreases statuses.len(),
{
    reveal_with_fuel(count_occupied, 3);
    reveal_with_fuel(enc_players, 3);
    if statuses.len() == 0 {
        assert(statuses.push(st)[0] == st);
        assert(statuses.push(st).drop_first() =~= Seq::<u8>::empty());
    } else {
        assert(statuses.push(st)[0] == statuses[0]);
        assert(statuses.push(st).drop_first() =~= statuses.drop_first().push(st));
        if slot_occupied(statuses[0]) {
            assert(players.len() > 0) by {
                lemma_count_occupied_nonneg(statuses.drop_first());
            }
            assert(players.push(players[0])[0] == players[0]);
            assert(players.drop_first().len() == count_occupied(statuses.drop_first()));
            lemma_players_snoc_empty(statuses.drop_first(), players.drop_first(), st);
        } else {
            lemma_players_snoc_empty(statuses.drop_first(), players, st);
        }
    }
}

proof fn lemma_count_occupied_nonneg(statuses: Seq<u8>)
    ensures
        count_occupied(statuses) >= 0,
    decreases statuses.len(),
{
    if statuses.len() > 0 {
        lemma_count_occupied_nonneg(statuses.drop_first());
    }
}

/// Read sixteen per-slot mods.
fn read_u32_items(data: &Vec<u8>, pos: usize, n: usize) -> (r: Option<(Vec<u32>, usize)>)
    requires
        pos <= data@.len(),
    ensures
        r matches Some((v, p)) ==> pos <= p <= data@.len() && v@.len() == n && data@.subrange(
            pos as int,
            p as int,
        ) =~= enc_u32_items(v@),
{
    let mut out: Vec<u32> = Vec::new();
    let mut p: usize = pos;
    let mut k: usize = 0;
    proof {
        assert(data@.subrange(pos as int, pos as int) =~= Seq::<u8>::empty());
        assert(enc_u32_items(Seq::<u32>::empty()) =~= Seq::<u8>::empty());
    }
    while k < n
        invariant
            k <= n,
            pos <= p <= data@.len(),
            out@.len() == k,
            data@.subrange(pos as int, p as int) =~= enc_u32_items(out@),
        decreases n - k,
    {
        match read_u32(data, p) {
            None => {
                return None;
            },
            Some((v, p2)) => {
                proof {
                    lemma_u32_items_snoc(out@, v);
                    assert(data@.subrange(pos as int, p2 as int) =~= data@.subrange(
                        pos as int,
                        p as int,
                    ) + data@.subrange(p as int, p2 as int));
                }
                out.push(v);
                p = p2;
                k = k + 1;
            },
        }
    }
    Some((out, p))
}

proof fn lemma_u32_items_snoc(l: Seq<u32>, x: u32)
    ensures
        enc_u32_items(l.push(x)) =~= enc_u32_items(l) + le_bytes(x as nat, 4),
    decreases l.len(),
{
    reveal_with_fuel(enc_u32_items, 3);
    if l.len() == 0 {
        assert(l.push(x)[0] == x);
        assert(l.push(x).drop_first() =~= Seq::<u32>::empty());
    } else {
        assert(l.push(x)[0] == l[0]);
        assert(l.push(x).drop_first() =~= l.drop_first().push(x));
        lemma_u32_items_snoc(l.drop_first(), x);
    }
}

/// Read a match-settings record: the consumed bytes are exactly the
/// encoding of what is returned, so every field is pinned to the wire.
#[verifier::rlimit(100)]
#[verifier::spinoff_prover]
pub fn read_match_update(data: &Vec<u8>, pos: usize) -> (r: Option<(MatchUpdateData, usize)>)
    ensures
        r matches Some((m, p)) ==> pos <= p <= data@.len() && m.wf() && data@.subrange(
            pos as int,
            p as int,
        ) =~= m.enc(),
{
    let r1 = read_u16(data, pos);
    let (match_id, p1) = match r1 {
        Some(v) => v,
        None => {
            return None;
        },
    };
    let (in_progress, p2) = match read_bool(data, p1) {
        Some(v) => v,
        None => {
            return None;
        },
    };
    let (match_type, p3) = match read_i8(data, p2) {
        Some(v) => v,
        None => {
            return None;
        },
    };
    let (play_mods, p4) = match read_u32(data, p3) {
        Some(v) => v,
        None => {
            return None;
        },
    };
    let (match_name, p5) = match read_str(data, p4) {
        Some(v) => v,
        None => {
            return None;
        },
    };
    let (password, p6) = match read_str(data, p5) {
        Some(v) => v,
        None => {
            return None;
        },
    };
    let (beatmap_name, p7) = match read_str(data, p6) {
        Some(v) => v,
        None => {
            return None;
        },
    };
    let (beatmap_id, p8) = match read_i32(data, p7) {
        Some(v) => v,
        None => {
            return None;
        },
    };
    let (beatmap_md5, p9) = match read_str(data, p8) {
        Some(v) => v,
        None => {
            return None;
        },
    };
    let (slot_status, p10) = match read_raw(data, p9, 16) {
        Some(v) => v,
        None => {
            return None;
        },
    };
    let (slot_teams, p11) = match read_raw(data, p10, 16) {
        Some(v) => v,
        None => {
            return None;
        },
    };
    let (slot_players, p12) = match read_players(data, p11, &slot_status) {
        Some(v) => v,
        None => {
            return None;
        },
    };
    let (host_player_id, p13) = match read_i32(data, p12) {
        Some(v) => v,
        None => {
            return None;
        },
    };
    let (match_game_mode, p14) = match read_u8(data, p13) {
        Some(v) => v,
        None => {
            return None;
        },
    };
    let (win_condition, p15) = match read_u8(data, p14) {
        Some(v) => v,
        None => {
            return None;
        },
    };
    let (team_type, p16) = match read_u8(data, p15) {
        Some(v) => v,
        None => {
            return None;
        },
    };
    let (freemods, p17) = match read_bool(data, p16) {
        Some(v) => v,
        None => {
            return None;
        },
    };
    let (player_mods, p18) = if freemods {
        match read_u32_items(data, p17, 16) {
            Some(v) => v,
            None => {
                return None;
            },
        }
    } else {
        (Vec::new(), p17)
    };
    let (match_seed, p19) = match read_i32(data, p18) {
        Some(v) => v,
        None => {
            return None;
        },
    };
    let m = MatchUpdateData {
        match_id,
        in_progress,
        match_type,
        play_mods,
        match_name,
        password,
        beatmap_name,
        beatmap_id,
        beatmap_md5,
        slot_status,
        slot_teams,
        slot_players,
        host_player_id,
        match_game_mode,
        win_condition,
        team_type,
        freemods,
        player_mods,
        match_seed,
    };
    proof {
        if !m.freemods {
            assert(enc_u32_items(m.player_mods@) =~= Seq::<u8>::empty());
        }
        let d = data@;
        assert(d.subrange(pos as int, p2 as int) =~= d.subrange(pos as int, p1 as int)
            + d.subrange(p1 as int, p2 as int));
        assert(d.subrange(pos as int, p3 as int) =~= d.subrange(pos as int, p2 as int)
            + d.subrange(p2 as int, p3 as int));
        assert(d.subrange(pos as int, p4 as int) =~= d.subrange(pos as int, p3 as int)
            + d.subrange(p3 as int, p4 as int));
        assert(d.subrange(pos as int, p5 as int) =~= d.subrange(pos as int, p4 as int)
            + d.subrange(p4 as int, p5 as int));
        assert(d.subrange(pos as int, p6 as int) =~= d.subrange(pos as int, p5 as int)
            + d.subrange(p5 as int, p6 as int));
        assert(d.subrange(pos as int, p7 as int) =~= d.subrange(pos as int, p6 as int)
            + d.subrange(p6 as int, p7 as int));
        assert(d.subrange(pos as int, p8 as int) =~= d.subrange(pos as int, p7 as int)
            + d.subrange(p7 as int, p8 as int));
        assert(d.subrange(pos as int, p9 as int) =~= d.subrange(pos as int, p8 as int)
            + d.subrange(p8 as int, p9 as int));
        assert(d.subrange(pos as int, p10 as int) =~= d.subrange(pos as int, p9 as int)
            + d.subrange(p9 as int, p10 as int));
        assert(d.subrange(pos as int, p11 as int) =~= d.subrange(pos as int, p10 as int)
            + d.subrange(p10 as int, p11 as int));
        assert(d.subrange(pos as int, p12 as int) =~= d.subrange(pos as int, p11 as int)
            + d.subrange(p11 as int, p12 as int));
        assert(d.subrange(pos as int, p13 as int) =~= d.subrange(pos as int, p12 as int)
            + d.subrange(p12 as int, p13 as int));
        assert(d.subrange(pos as int, p14 as int) =~= d.subrange(pos as int, p13 as int)
            + d.subrange(p13 as int, p14 as int));
        assert(d.subrange(pos as int, p15 as int) =~= d.subrange(pos as int, p14 as int)
            + d.subrange(p14 as int, p15 as int));
        assert(d.subrange(pos as int, p16 as int) =~= d.subrange(pos as int, p15 as int)
            + d.subrange(p15 as int, p16 as int));
        assert(d.subrange(pos as int, p17 as int) =~= d.subrange(pos as int, p16 as int)
            + d.subrange(p16 as int, p17 as int));
        assert(d.subrange(pos as int, p18 as int) =~= d.subrange(pos as int, p17 as int)
            + d.subrange(p17 as int, p18 as int));
        assert(d.subrange(pos as int, p19 as int) =~= d.subrange(pos as int, p18 as int)
            + d.subrange(p18 as int, p19 as int));
        assert(d.subrange(p13 as int, p14 as int) + d.subrange(p14 as int, p15 as int)
            + d.subrange(p15 as int, p16 as int) + d.subrange(p16 as int, p17 as int) =~= seq![
            m.match_game_mode,
            m.win_condition,
            m.team_type,
            if m.freemods {
                1u8
            } else {
                0u8
            },
        ]);
        assert(d.subrange(pos as int, p19 as int) =~= m.enc());
    }
    Some((m, p19))
}

} // verus!
