//! The binary packet protocol spoken between the game client and the session
//! gateway. A frame is a 7-byte header — packet id (`u16`, little endian), one
//! zero byte, payload length (`u32`, little endian) — followed by the payload.
//! Payloads are typed streams of little-endian integers, single-byte booleans,
//! length-prefixed UTF-8 strings (flag byte `0x0b`, ULEB128 byte length,
//! bytes; the empty string is the single byte `0x00`) and `i32` lists with a
//! `u16` element count.
//!
//! Every writer's postcondition gives the exact bytes appended, and every
//! reader's postcondition says that the consumed bytes are exactly the
//! encoding of the returned value, so encoding and decoding invert each other.
//! The reader accepts only canonical ULEB128 lengths (the shortest form, which
//! is the only form the client's writer produces).

use vstd::prelude::*;
use vstd::utf8::{decode_utf8, encode_utf8, valid_utf8};

verus! {

// Packet ids used by the gateway, as the protocol fixes them.
pub const OSU_USER_CHANGE_ACTION: u16 = 0;
pub const OSU_SEND_PUBLIC_MESSAGE: u16 = 1;
pub const OSU_USER_LOGOUT: u16 = 2;
pub const OSU_USER_REQUEST_STATUS_UPDATE: u16 = 3;
pub const OSU_PING: u16 = 4;
pub const BANCHO_USER_LOGIN_REPLY: u16 = 5;
pub const BANCHO_SEND_MESSAGE: u16 = 7;
pub const BANCHO_USER_STATS: u16 = 11;
pub const BANCHO_USER_LOGOUT: u16 = 12;
pub const BANCHO_SPECTATOR_JOINED: u16 = 13;
pub const BANCHO_SPECTATOR_LEFT: u16 = 14;
pub const BANCHO_SPECTATE_FRAMES: u16 = 15;
pub const OSU_SPECTATE_START: u16 = 16;
pub const OSU_SPECTATE_STOP: u16 = 17;
pub const OSU_SPECTATE_FRAMES: u16 = 18;
pub const BANCHO_NOTIFICATION: u16 = 24;
pub const OSU_SEND_PRIVATE_MESSAGE: u16 = 25;
pub const BANCHO_FELLOW_SPECTATOR_JOINED: u16 = 42;
pub const BANCHO_FELLOW_SPECTATOR_LEFT: u16 = 43;
pub const OSU_USER_CHANNEL_JOIN: u16 = 63;
pub const BANCHO_CHANNEL_JOIN_SUCCESS: u16 = 64;
pub const BANCHO_CHANNEL_INFO: u16 = 65;
pub const BANCHO_CHANNEL_KICK: u16 = 66;
pub const BANCHO_PRIVILEGES: u16 = 71;
pub const BANCHO_PROTOCOL_VERSION: u16 = 75;
pub const OSU_USER_CHANNEL_PART: u16 = 78;
pub const BANCHO_USER_PRESENCE: u16 = 83;
pub const OSU_USER_STATS_REQUEST: u16 = 85;
pub const BANCHO_RESTART: u16 = 86;
pub const BANCHO_CHANNEL_INFO_END: u16 = 89;
pub const BANCHO_SILENCE_END: u16 = 92;
pub const BANCHO_USER_SILENCED: u16 = 94;

/// Little-endian encoding of `v` in `n` bytes (the low byte first).
pub open spec fn le_bytes(v: nat, n: nat) -> Seq<u8>
    decreases n,
{
    if n == 0 {
        Seq::empty()
    } else {
        seq![(v % 256) as u8] + le_bytes(v / 256, (n - 1) as nat)
    }
}

pub proof fn lemma_le_bytes_len(v: nat, n: nat)
    ensures
        le_bytes(v, n).len() == n,
    decreases n,
{
    if n > 0 {
        lemma_le_bytes_len(v / 256, (n - 1) as nat);
    }
}

/// A canonical ULEB128 encoding of a value below 2^32 takes at most 5 bytes.
pub proof fn lemma_enc_uleb_len(n: nat)
    requires
        n < 0x1_0000_0000,
    ensures
        1 <= enc_uleb(n).len() <= 5,
{
    let n1 = n / 128;
    let n2 = n1 / 128;
    let n3 = n2 / 128;
    let n4 = n3 / 128;
    assert(n4 < 128) by (nonlinear_arith)
        requires
            n < 0x1_0000_0000,
            n1 == n / 128,
            n2 == n1 / 128,
            n3 == n2 / 128,
            n4 == n3 / 128,
    ;
    assert(enc_uleb(n4).len() == 1);
    assert(enc_uleb(n3).len() <= 2);
    assert(enc_uleb(n2).len() <= 3);
    assert(enc_uleb(n1).len() <= 4);
    assert(enc_uleb(n).len() <= 5);
}

/// Bound on the wire size of a string.
pub proof fn lemma_enc_str_len(s: Seq<char>)
    requires
        encode_utf8(s).len() < 0x1_0000_0000,
    ensures
        1 <= enc_str(s).len() <= encode_utf8(s).len() + 6,
{
    if encode_utf8(s).len() > 0 {
        lemma_enc_uleb_len(encode_utf8(s).len());
    }
}

/// The bit pattern of an `i32`, as the unsigned value its wire bytes encode.
pub open spec fn i32_bits(v: i32) -> nat {
    if v >= 0 {
        v as nat
    } else {
        (v + 0x1_0000_0000) as nat
    }
}

/// The bit pattern of an `i64`.
pub open spec fn i64_bits(v: i64) -> nat {
    if v >= 0 {
        v as nat
    } else {
        (v + 0x1_0000_0000_0000_0000) as nat
    }
}

/// Canonical (shortest-form) ULEB128 encoding of `n`.
pub open spec fn enc_uleb(n: nat) -> Seq<u8>
    decreases n,
{
    if n < 128 {
        seq![n as u8]
    } else {
        seq![(n % 128 + 128) as u8] + enc_uleb(n / 128)
    }
}

/// Wire form of a string: empty is `0x00`; otherwise flag `0x0b`, the
/// ULEB128-encoded UTF-8 byte length, and the UTF-8 bytes.
pub open spec fn enc_str(s: Seq<char>) -> Seq<u8> {
    let b = encode_utf8(s);
    if b.len() == 0 {
        seq![0u8]
    } else {
        seq![0x0bu8] + enc_uleb(b.len()) + b
    }
}

/// Wire form of an `i32` list: `u16` element count, then each element.
pub open spec fn enc_i32_list(l: Seq<i32>) -> Seq<u8>
    decreases l.len(),
{
    if l.len() == 0 {
        le_bytes(0, 2)
    } else {
        le_bytes((l.len() % 0x1_0000) as nat, 2) + enc_i32_list_items(l)
    }
}

pub open spec fn enc_i32_list_items(l: Seq<i32>) -> Seq<u8>
    decreases l.len(),
{
    if l.len() == 0 {
        Seq::empty()
    } else {
        le_bytes(i32_bits(l[0]), 4) + enc_i32_list_items(l.drop_first())
    }
}

/// A whole frame: header then payload.
pub open spec fn frame(id: u16, payload: Seq<u8>) -> Seq<u8> {
    le_bytes(id as nat, 2) + seq![0u8] + le_bytes(payload.len() % 0x1_0000_0000, 4) + payload
}

// ------------------------------------------------------------------
// Writers. Each appends the exact encoding to the buffer.
// ------------------------------------------------------------------

pub fn put_u8(buf: &mut Vec<u8>, v: u8)
    ensures
        final(buf)@ == old(buf)@ + seq![v],
{
    buf.push(v);
}

pub fn put_u16(buf: &mut Vec<u8>, v: u16)
    ensures
        final(buf)@ == old(buf)@ + le_bytes(v as nat, 2),
{
    buf.push((v % 256) as u8);
    buf.push((v / 256 % 256) as u8);
    proof {
        reveal_with_fuel(le_bytes, 3);
        assert(buf@ =~= old(buf)@ + le_bytes(v as nat, 2));
    }
}

pub fn put_u32(buf: &mut Vec<u8>, v: u32)
    ensures
        final(buf)@ == old(buf)@ + le_bytes(v as nat, 4),
{
    buf.push((v % 256) as u8);
    buf.push((v / 256 % 256) as u8);
    buf.push((v / 0x1_0000 % 256) as u8);
    buf.push((v / 0x100_0000 % 256) as u8);
    proof {
        reveal_with_fuel(le_bytes, 5);
        assert(v as nat / 256 / 256 == v as nat / 0x1_0000) by (nonlinear_arith);
        assert(v as nat / 256 / 256 / 256 == v as nat / 0x100_0000) by (nonlinear_arith);
        assert(buf@ =~= old(buf)@ + le_bytes(v as nat, 4));
    }
}

pub fn put_u64(buf: &mut Vec<u8>, v: u64)
    ensures
        final(buf)@ == old(buf)@ + le_bytes(v as nat, 8),
{
    let lo: u32 = (v % 0x1_0000_0000) as u32;
    let hi: u32 = (v / 0x1_0000_0000) as u32;
    put_u32(buf, lo);
    put_u32(buf, hi);
    assert(buf@ =~= old(buf)@ + le_bytes(v as nat, 8)) by {
        lemma_le_bytes_split(v as nat);
    }
}

proof fn lemma_le_bytes_split(v: nat)
    requires
        v < 0x1_0000_0000_0000_0000,
    ensures
        le_bytes(v, 8) =~= le_bytes(v % 0x1_0000_0000, 4) + le_bytes(v / 0x1_0000_0000, 4),
{
    let lo = v % 0x1_0000_0000;
    let hi = v / 0x1_0000_0000;
    lemma_le_bytes_len(v, 8);
    lemma_le_bytes_len(lo, 4);
    lemma_le_bytes_len(hi, 4);
    assert forall|i: int| 0 <= i < 8 implies le_bytes(v, 8)[i] == (le_bytes(lo, 4) + le_bytes(
        hi,
        4,
    ))[i] by {
        lemma_le_bytes_index(v, 8, i);
        if i < 4 {
            lemma_le_bytes_index(lo, 4, i);
            lemma_div_pow_mod(v, i);
        } else {
            lemma_le_bytes_index(hi, 4, i - 4);
            lemma_div_pow_hi(v, i);
        }
    }
}

/// The byte at position `i` of a little-endian encoding is digit `i` base 256.
pub proof fn lemma_le_bytes_index(v: nat, n: nat, i: int)
    requires
        0 <= i < n,
    ensures
        le_bytes(v, n)[i] == (v / pow256(i as nat) % 256) as u8,
    decreases n,
{
    lemma_le_bytes_len(v / 256, (n - 1) as nat);
    if i == 0 {
        assert(pow256(0) == 1);
        assert(le_bytes(v, n)[0] == (v % 256) as u8);
        assert(v / 1 == v);
    } else {
        lemma_le_bytes_index(v / 256, (n - 1) as nat, i - 1);
        assert(v / 256 / pow256((i - 1) as nat) == v / pow256(i as nat)) by {
            lemma_pow256_pos((i - 1) as nat);
            lemma_div_chain(v, pow256((i - 1) as nat));
        }
    }
}

pub open spec fn pow256(k: nat) -> nat
    decreases k,
{
    if k == 0 {
        1
    } else {
        256 * pow256((k - 1) as nat)
    }
}

proof fn lemma_div_chain(v: nat, p: nat)
    requires
        p > 0,
    ensures
        v / 256 / p == v / (256 * p),
{
    vstd::arithmetic::div_mod::lemma_div_denominator(v as int, 256, p as int);
}

proof fn lemma_pow256_pos(k: nat)
    ensures
        pow256(k) > 0,
    decreases k,
{
    if k > 0 {
        lemma_pow256_pos((k - 1) as nat);
    }
}

proof fn lemma_div_pow_mod(v: nat, i: int)
    requires
        0 <= i < 4,
    ensures
        v % 0x1_0000_0000 / pow256(i as nat) % 256 == v / pow256(i as nat) % 256,
{
    let p = pow256(i as nat);
    reveal_with_fuel(pow256, 5);
    assert(pow256(0) == 1 && pow256(1) == 256 && pow256(2) == 0x1_0000 && pow256(3) == 0x100_0000);
    assert(v % 0x1_0000_0000 / p % 256 == v / p % 256) by (nonlinear_arith)
        requires
            (p == 1 || p == 256 || p == 0x1_0000 || p == 0x100_0000),
    ;
}

proof fn lemma_div_pow_hi(v: nat, i: int)
    requires
        4 <= i < 8,
    ensures
        v / 0x1_0000_0000 / pow256((i - 4) as nat) % 256 == v / pow256(i as nat) % 256,
{
    let q = pow256((i - 4) as nat);
    lemma_pow256_pos((i - 4) as nat);
    reveal_with_fuel(pow256, 9);
    lemma_div_chain_gen(v, 0x1_0000_0000, q);
    assert(pow256(i as nat) == 0x1_0000_0000 * q) by {
        lemma_pow256_add(i);
    }
}

proof fn lemma_div_chain_gen(v: nat, a: nat, b: nat)
    requires
        a > 0,
        b > 0,
    ensures
        v / a / b == v / (a * b),
{
    vstd::arithmetic::div_mod::lemma_div_denominator(v as int, a as int, b as int);
}

proof fn lemma_pow256_add(i: int)
    requires
        4 <= i < 8,
    ensures
        pow256(i as nat) == 0x1_0000_0000 * pow256((i - 4) as nat),
{
    reveal_with_fuel(pow256, 9);
}

pub fn put_i32(buf: &mut Vec<u8>, v: i32)
    ensures
        final(buf)@ == old(buf)@ + le_bytes(i32_bits(v), 4),
{
    let u: u32 = if v >= 0 {
        v as u32
    } else {
        proof {
            assert(v + 0x1_0000_0000 < 0x1_0000_0000);
        }
        ((v as i64) + 0x1_0000_0000i64) as u32
    };
    proof {
        assert(u as nat == i32_bits(v));
    }
    put_u32(buf, u);
}

pub fn put_i64(buf: &mut Vec<u8>, v: i64)
    ensures
        final(buf)@ == old(buf)@ + le_bytes(i64_bits(v), 8),
{
    let u: u64 = if v >= 0 {
        v as u64
    } else {
        proof {
            assert(v + 0x1_0000_0000_0000_0000 < 0x1_0000_0000_0000_0000);
        }
        ((v as i128) + 0x1_0000_0000_0000_0000i128) as u64
    };
    proof {
        assert(u as nat == i64_bits(v));
    }
    put_u64(buf, u);
}

pub fn put_bool(buf: &mut Vec<u8>, v: bool)
    ensures
        final(buf)@ == old(buf)@ + seq![if v { 1u8 } else { 0u8 }],
{
    buf.push(if v { 1 } else { 0 });
}

/// Append the canonical ULEB128 encoding of `v`.
pub fn put_uleb(buf: &mut Vec<u8>, v: u32)
    ensures
        final(buf)@ == old(buf)@ + enc_uleb(v as nat),
    decreases v,
{
    if v < 128 {
        buf.push(v as u8);
        assert(buf@ =~= old(buf)@ + enc_uleb(v as nat));
    } else {
        buf.push((v % 128 + 128) as u8);
        put_uleb(buf, v / 128);
        assert(buf@ =~= old(buf)@ + enc_uleb(v as nat));
    }
}

/// Append the wire form of a string.
pub fn put_str(buf: &mut Vec<u8>, s: &str)
    requires
        encode_utf8(s@).len() < 0x1_0000_0000,
    ensures
        final(buf)@ == old(buf)@ + enc_str(s@),
{
    let bytes = s.as_bytes();
    if bytes.len() == 0 {
        buf.push(0);
        assert(buf@ =~= old(buf)@ + enc_str(s@));
    } else {
        buf.push(0x0b);
        put_uleb(buf, bytes.len() as u32);
        let ghost mid = buf@;
        let mut i: usize = 0;
        while i < bytes.len()
            invariant
                i <= bytes.len(),
                buf@ == mid + bytes@.subrange(0, i as int),
            decreases bytes.len() - i,
        {
            buf.push(bytes[i]);
            proof {
                assert(buf@ =~= mid + bytes@.subrange(0, i + 1));
            }
            i = i + 1;
        }
        assert(bytes@.subrange(0, bytes@.len() as int) =~= bytes@);
        assert(buf@ =~= old(buf)@ + enc_str(s@));
    }
}

/// Append the wire form of an `i32` list.
pub fn put_i32_list(buf: &mut Vec<u8>, l: &Vec<i32>)
    requires
        l@.len() < 0x1_0000,
    ensures
        final(buf)@ == old(buf)@ + enc_i32_list(l@),
{
    put_u16(buf, l.len() as u16);
    let ghost mid = buf@;
    let mut i: usize = 0;
    while i < l.len()
        invariant
            i <= l.len(),
            buf@ == mid + enc_i32_list_items(l@.subrange(0, i as int)),
        decreases l.len() - i,
    {
        proof {
            lemma_items_snoc(l@.subrange(0, i as int), l@[i as int]);
            assert(l@.subrange(0, i + 1) =~= l@.subrange(0, i as int).push(l@[i as int]));
        }
        put_i32(buf, l[i]);
        i = i + 1;
    }
    assert(l@.subrange(0, l@.len() as int) =~= l@);
    assert(buf@ =~= old(buf)@ + enc_i32_list(l@));
}

proof fn lemma_items_snoc(l: Seq<i32>, x: i32)
    ensures
        enc_i32_list_items(l.push(x)) =~= enc_i32_list_items(l) + le_bytes(i32_bits(x), 4),
    decreases l.len(),
{
    reveal_with_fuel(enc_i32_list_items, 3);
    if l.len() == 0 {
        assert(l.push(x)[0] == x);
        assert(l.push(x).drop_first() =~= Seq::<i32>::empty());
        assert(enc_i32_list_items(l.push(x)) =~= le_bytes(i32_bits(x), 4));
    } else {
        assert(l.push(x)[0] == l[0]);
        assert(l.push(x).drop_first() =~= l.drop_first().push(x));
        lemma_items_snoc(l.drop_first(), x);
        assert(enc_i32_list_items(l.push(x)) =~= le_bytes(i32_bits(l[0]), 4) + (enc_i32_list_items(
            l.drop_first(),
        ) + le_bytes(i32_bits(x), 4)));
    }
}

/// Append a whole frame: header, then the payload bytes.
pub fn put_frame(buf: &mut Vec<u8>, id: u16, payload: &Vec<u8>)
    requires
        payload@.len() < 0x1_0000_0000,
    ensures
        final(buf)@ == old(buf)@ + frame(id, payload@),
{
    put_u16(buf, id);
    buf.push(0);
    put_u32(buf, payload.len() as u32);
    let ghost mid = buf@;
    let mut i: usize = 0;
    while i < payload.len()
        invariant
            i <= payload.len(),
            buf@ == mid + payload@.subrange(0, i as int),
        decreases payload.len() - i,
    {
        buf.push(payload[i]);
        proof {
            assert(buf@ =~= mid + payload@.subrange(0, i + 1));
        }
        i = i + 1;
    }
    assert(payload@.subrange(0, payload@.len() as int) =~= payload@);
    assert(buf@ =~= old(buf)@ + frame(id, payload@));
}

} // verus!

verus! {

// ------------------------------------------------------------------
// Readers. Each consumes exactly the encoding of the value it returns,
// so re-encoding what was read reproduces the input bytes; and whenever
// an encoding lies at the read position, the reader accepts it and
// returns the encoded value.
// ------------------------------------------------------------------

/// The pattern occurs in the data at this position.
pub open spec fn prefix_at(data: Seq<u8>, pos: int, pat: Seq<u8>) -> bool {
    0 <= pos && pos + pat.len() <= data.len() && data.subrange(pos, pos + pat.len()) == pat
}

/// A concatenation occurs at a position exactly when its parts occur in
/// order.
pub proof fn lemma_prefix_split(data: Seq<u8>, pos: int, a: Seq<u8>, b: Seq<u8>)
    ensures
        prefix_at(data, pos, a + b) <==> (prefix_at(data, pos, a) && prefix_at(
            data,
            pos + a.len(),
            b,
        )),
{
    if prefix_at(data, pos, a + b) {
        let whole = data.subrange(pos, pos + a.len() + b.len());
        assert forall|i: int| 0 <= i < a.len() implies data[pos + i] == a[i] by {
            assert(whole[i] == data[pos + i]);
            assert((a + b)[i] == a[i]);
        }
        assert forall|i: int| 0 <= i < b.len() implies data[pos + a.len() + i] == b[i] by {
            assert(whole[a.len() + i] == data[pos + a.len() + i]);
            assert((a + b)[a.len() + i] == b[i]);
        }
        assert(data.subrange(pos, pos + a.len()) =~= a);
        assert(data.subrange(pos + a.len(), pos + a.len() + b.len()) =~= b);
    }
    if prefix_at(data, pos, a) && prefix_at(data, pos + a.len(), b) {
        assert forall|i: int| 0 <= i < a.len() + b.len() implies data.subrange(
            pos,
            pos + a.len() + b.len(),
        )[i] == (a + b)[i] by {
            if i < a.len() {
                assert(data.subrange(pos, pos + a.len())[i] == data[pos + i]);
            } else {
                assert(data.subrange(pos + a.len(), pos + a.len() + b.len())[i - a.len()] == data[
                    pos + i
                ]);
            }
        }
        assert(data.subrange(pos, pos + a.len() + b.len()) =~= a + b);
    }
}

/// Little-endian encodings of equal width decode to equal values.
pub proof fn lemma_le_bytes_inj(a: nat, b: nat, n: nat)
    requires
        a < pow256(n),
        b < pow256(n),
        le_bytes(a, n) == le_bytes(b, n),
    ensures
        a == b,
    decreases n,
{
    if n == 0 {
    } else {
        assert(le_bytes(a, n)[0] == (a % 256) as u8 && le_bytes(b, n)[0] == (b % 256) as u8);
        lemma_le_bytes_len(a / 256, (n - 1) as nat);
        lemma_le_bytes_len(b / 256, (n - 1) as nat);
        assert(le_bytes(a, n).drop_first() =~= le_bytes(a / 256, (n - 1) as nat));
        assert(le_bytes(b, n).drop_first() =~= le_bytes(b / 256, (n - 1) as nat));
        assert(a / 256 < pow256((n - 1) as nat) && b / 256 < pow256((n - 1) as nat)) by (nonlinear_arith)
            requires
                a < pow256(n),
                b < pow256(n),
                pow256(n) == 256 * pow256((n - 1) as nat),
        ;
        lemma_le_bytes_inj(a / 256, b / 256, (n - 1) as nat);
        assert(a == (a / 256) * 256 + a % 256 && b == (b / 256) * 256 + b % 256) by (nonlinear_arith);
    }
}

/// The unsigned width bounds of the two signed bit patterns.
pub proof fn lemma_bits_bounds(v: i32, w: i64)
    ensures
        i32_bits(v) < pow256(4),
        i64_bits(w) < pow256(8),
{
    reveal_with_fuel(pow256, 9);
}

/// Distinct `i32` values have distinct bit patterns.
pub proof fn lemma_i32_bits_inj(a: i32, b: i32)
    requires
        i32_bits(a) == i32_bits(b),
    ensures
        a == b,
{
}

/// The widths used on the wire.
pub proof fn lemma_pow256_values()
    ensures
        pow256(2) == 0x1_0000,
        pow256(4) == 0x1_0000_0000,
{
    reveal_with_fuel(pow256, 5);
}

pub fn read_u8(data: &Vec<u8>, pos: usize) -> (r: Option<(u8, usize)>)
    ensures
        r matches Some((v, p)) ==> pos < data@.len() && p == pos + 1 && data@.subrange(
            pos as int,
            p as int,
        ) =~= seq![v],
        r is None ==> pos + 1 > data@.len(),
{
    if pos < data.len() {
        let v = data[pos];
        assert(data@.subrange(pos as int, pos + 1) =~= seq![v]);
        Some((v, pos + 1))
    } else {
        None
    }
}

pub fn read_u16(data: &Vec<u8>, pos: usize) -> (r: Option<(u16, usize)>)
    ensures
        r matches Some((v, p)) ==> p == pos + 2 && p <= data@.len() && data@.subrange(
            pos as int,
            p as int,
        ) =~= le_bytes(v as nat, 2),
        r is None ==> pos + 2 > data@.len(),
{
    if data.len() >= 2 && pos <= data.len() - 2 {
        let a = data[pos];
        let b = data[pos + 1];
        let v: u16 = a as u16 + 256 * (b as u16);
        proof {
            reveal_with_fuel(le_bytes, 3);
            assert(v as nat % 256 == a as nat && v as nat / 256 == b as nat) by (nonlinear_arith)
                requires
                    v == a + 256 * (b as u16),
                    a < 256,
                    b < 256,
            ;
            assert(data@.subrange(pos as int, pos + 2) =~= le_bytes(v as nat, 2));
        }
        Some((v, pos + 2))
    } else {
        None
    }
}

pub fn read_u32(data: &Vec<u8>, pos: usize) -> (r: Option<(u32, usize)>)
    ensures
        r matches Some((v, p)) ==> p == pos + 4 && p <= data@.len() && data@.subrange(
            pos as int,
            p as int,
        ) =~= le_bytes(v as nat, 4),
        r is None ==> pos + 4 > data@.len(),
{
    if data.len() >= 4 && pos <= data.len() - 4 {
        let a = data[pos] as u32;
        let b = data[pos + 1] as u32;
        let c = data[pos + 2] as u32;
        let d = data[pos + 3] as u32;
        let v: u32 = a + 256 * b + 0x1_0000 * c + 0x100_0000 * d;
        proof {
            reveal_with_fuel(le_bytes, 5);
            assert(v as nat % 256 == a && v as nat / 256 % 256 == b && v as nat / 0x1_0000 % 256
                == c && v as nat / 0x100_0000 % 256 == d) by (nonlinear_arith)
                requires
                    v == a + 256 * b + 0x1_0000 * c + 0x100_0000 * d,
                    a < 256,
                    b < 256,
                    c < 256,
                    d < 256,
            ;
            assert(v as nat / 256 / 256 == v as nat / 0x1_0000) by (nonlinear_arith);
            assert(v as nat / 256 / 256 / 256 == v as nat / 0x100_0000) by (nonlinear_arith);
            assert(data@.subrange(pos as int, pos + 4) =~= le_bytes(v as nat, 4));
        }
        Some((v, pos + 4))
    } else {
        None
    }
}

pub fn read_i32(data: &Vec<u8>, pos: usize) -> (r: Option<(i32, usize)>)
    ensures
        r matches Some((v, p)) ==> p == pos + 4 && p <= data@.len() && data@.subrange(
            pos as int,
            p as int,
        ) =~= le_bytes(i32_bits(v), 4),
        r is None ==> pos + 4 > data@.len(),
{
    match read_u32(data, pos) {
        Some((u, p)) => {
            let v: i32 = if u <= 0x7fff_ffff {
                u as i32
            } else {
                ((u as i64) - 0x1_0000_0000i64) as i32
            };
            proof {
                assert(i32_bits(v) == u as nat);
            }
            Some((v, p))
        },
        None => None,
    }
}

/// Read a canonical ULEB128 value. Encodings with a redundant trailing zero
/// byte, or too large for `u32`, are rejected; every canonical encoding at
/// the read position is accepted and decodes to its value.
pub fn read_uleb(data: &Vec<u8>, pos: usize) -> (r: Option<(u32, usize)>)
    ensures
        r matches Some((v, p)) ==> pos <= p <= data@.len() && data@.subrange(
            pos as int,
            p as int,
        ) =~= enc_uleb(v as nat),
        forall|v: u32|
            #[trigger] prefix_at(data@, pos as int, enc_uleb(v as nat)) ==> (r matches Some(
                (w, p),
            ) && w == v && p == pos + enc_uleb(v as nat).len()),
    decreases data@.len() - pos,
{
    proof {
        assert forall|v: u32| #[trigger] prefix_at(data@, pos as int, enc_uleb(v as nat)) implies (
        enc_uleb(v as nat).len() >= 1 && pos < data@.len() && data@[pos as int] == enc_uleb(
            v as nat,
        )[0]) by {
            lemma_enc_uleb_len(v as nat);
            assert(data@.subrange(pos as int, pos + enc_uleb(v as nat).len() as int)[0] == data@[
                pos as int
            ]);
        }
    }
    if pos >= data.len() {
        return None;
    }
    let b = data[pos];
    if b < 128 {
        assert(data@.subrange(pos as int, pos + 1) =~= enc_uleb(b as nat));
        proof {
            assert forall|v: u32| #[trigger] prefix_at(data@, pos as int, enc_uleb(v as nat))
                implies v == b && pos + enc_uleb(v as nat).len() == pos + 1 by {
                if v >= 128 {
                    assert(enc_uleb(v as nat)[0] == (v as nat % 128 + 128) as u8);
                }
            }
        }
        Some((b as u32, pos + 1))
    } else {
        proof {
            assert forall|v: u32| #[trigger] prefix_at(data@, pos as int, enc_uleb(v as nat))
                implies (v >= 128 && prefix_at(data@, pos + 1, enc_uleb((v / 128) as nat))
                && b as nat == v as nat % 128 + 128) by {
                if v < 128 {
                    assert(enc_uleb(v as nat)[0] == v as u8);
                } else {
                    assert(enc_uleb(v as nat) == seq![(v as nat % 128 + 128) as u8] + enc_uleb(
                        v as nat / 128,
                    ));
                    lemma_prefix_split(
                        data@,
                        pos as int,
                        seq![(v as nat % 128 + 128) as u8],
                        enc_uleb(v as nat / 128),
                    );
                    assert(data@.subrange(pos as int, pos + 1)[0] == data@[pos as int]);
                    assert(prefix_at(data@, pos as int, seq![(v as nat % 128 + 128) as u8]));
                    assert((v / 128) as nat == v as nat / 128);
                }
            }
        }
        match read_uleb(data, pos + 1) {
            None => {
                proof {
                    assert forall|v: u32| !#[trigger] prefix_at(
                        data@,
                        pos as int,
                        enc_uleb(v as nat),
                    ) by {
                        if prefix_at(data@, pos as int, enc_uleb(v as nat)) {
                            assert(prefix_at(data@, pos + 1, enc_uleb(((v / 128) as u32) as nat)));
                        }
                    }
                }
                None
            },
            Some((hi, p)) => {
                if hi == 0 {
                    // A continuation byte followed by zero is not canonical.
                    proof {
                        assert forall|v: u32| !#[trigger] prefix_at(
                            data@,
                            pos as int,
                            enc_uleb(v as nat),
                        ) by {
                            if prefix_at(data@, pos as int, enc_uleb(v as nat)) {
                                assert(prefix_at(
                                    data@,
                                    pos + 1,
                                    enc_uleb(((v / 128) as u32) as nat),
                                ));
                                assert(hi == v / 128 && v >= 128);
                            }
                        }
                    }
                    None
                } else if hi > (u32::MAX - (b - 128) as u32) / 128 {
                    proof {
                        assert forall|v: u32| !#[trigger] prefix_at(
                            data@,
                            pos as int,
                            enc_uleb(v as nat),
                        ) by {
                            if prefix_at(data@, pos as int, enc_uleb(v as nat)) {
                                assert(prefix_at(
                                    data@,
                                    pos + 1,
                                    enc_uleb(((v / 128) as u32) as nat),
                                ));
                                assert(hi == v / 128);
                                assert(b as nat == v as nat % 128 + 128);
                                assert(v as nat / 128 <= (u32::MAX - (v as nat % 128)) / 128) by (nonlinear_arith)
                                    requires
                                        v <= u32::MAX,
                                ;
                            }
                        }
                    }
                    None
                } else {
                    let v: u32 = (b - 128) as u32 + 128 * hi;
                    proof {
                        assert(v as nat % 128 == (b - 128) as nat && v as nat / 128
                            == hi as nat) by (nonlinear_arith)
                            requires
                                128 <= b < 256,
                                v as nat == (b - 128) + 128 * (hi as nat),
                        ;
                        assert(data@.subrange(pos as int, p as int) =~= seq![b] + data@.subrange(
                            pos + 1,
                            p as int,
                        ));
                        assert(data@.subrange(pos as int, p as int) =~= enc_uleb(v as nat));
                        assert forall|u: u32| #[trigger] prefix_at(
                            data@,
                            pos as int,
                            enc_uleb(u as nat),
                        ) implies u == v && pos + enc_uleb(u as nat).len() == p by {
                            assert(prefix_at(data@, pos + 1, enc_uleb(((u / 128) as u32) as nat)));
                            assert(hi == u / 128 && b as nat == u as nat % 128 + 128);
                            assert(u as nat == (u as nat % 128) + 128 * (u as nat / 128)) by (nonlinear_arith);
                            assert(u == v);
                            lemma_enc_uleb_len(u as nat);
                            assert(enc_uleb(u as nat).len() == 1 + enc_uleb(u as nat / 128).len());
                        }
                    }
                    Some((v, p))
                }
            },
        }
    }
}

/// Read a wire-format string. The length prefix must be canonical and the
/// bytes valid UTF-8, as the writer produces them.
/// What every string whose encoding lies at the read position must look
/// like, split into its wire parts.
proof fn lemma_str_prefix_parts(data: Seq<u8>, pos: int, s2: Seq<char>)
    requires
        prefix_at(data, pos, enc_str(s2)),
        encode_utf8(s2).len() < 0x1_0000_0000,
    ensures
        pos < data.len(),
        encode_utf8(s2).len() == 0 ==> data[pos] == 0,
        encode_utf8(s2).len() > 0 ==> data[pos] == 0x0b && prefix_at(
            data,
            pos + 1,
            enc_uleb(encode_utf8(s2).len()),
        ) && prefix_at(data, pos + 1 + enc_uleb(encode_utf8(s2).len()).len(), encode_utf8(s2)),
{
    lemma_enc_str_len(s2);
    assert(data.subrange(pos, pos + enc_str(s2).len() as int)[0] == data[pos]);
    if encode_utf8(s2).len() > 0 {
        let ul = enc_uleb(encode_utf8(s2).len());
        assert(enc_str(s2) == seq![0x0bu8] + ul + encode_utf8(s2));
        lemma_prefix_split(data, pos, seq![0x0bu8] + ul, encode_utf8(s2));
        lemma_prefix_split(data, pos, seq![0x0bu8], ul);
        assert((seq![0x0bu8] + ul) + encode_utf8(s2) =~= seq![0x0bu8] + ul + encode_utf8(s2));
        assert(prefix_at(data, pos, (seq![0x0bu8] + ul) + encode_utf8(s2)));
    }
}

/// Only the empty character sequence encodes to no bytes.
proof fn lemma_encode_empty(s2: Seq<char>)
    requires
        encode_utf8(s2).len() == 0,
    ensures
        s2 =~= Seq::<char>::empty(),
{
    if s2.len() > 0 {
        assert(encode_utf8(s2) == vstd::utf8::encode_scalar(s2[0] as u32) + encode_utf8(
            s2.drop_first(),
        ));
        assert(vstd::utf8::encode_scalar(s2[0] as u32).len() >= 1);
    }
}

/// Read a wire-format string. The length prefix must be canonical and the
/// bytes valid UTF-8, as the writer produces them; every string encoded at
/// the read position is accepted and read back.
pub fn read_str(data: &Vec<u8>, pos: usize) -> (r: Option<(String, usize)>)
    ensures
        r matches Some((s, p)) ==> pos <= p <= data@.len() && data@.subrange(
            pos as int,
            p as int,
        ) =~= enc_str(s@),
        forall|s2: Seq<char>|
            (#[trigger] prefix_at(data@, pos as int, enc_str(s2)) && encode_utf8(s2).len()
                < 0x1_0000_0000) ==> (r matches Some((s, p)) && s@ == s2 && p == pos + enc_str(
                s2,
            ).len()),
{
    if pos >= data.len() {
        proof {
            assert forall|s2: Seq<char>| !(#[trigger] prefix_at(data@, pos as int, enc_str(s2))
                && encode_utf8(s2).len() < 0x1_0000_0000) by {
                if prefix_at(data@, pos as int, enc_str(s2)) && encode_utf8(s2).len()
                    < 0x1_0000_0000 {
                    lemma_enc_str_len(s2);
                }
            }
        }
        return None;
    }
    let flag = data[pos];
    if flag == 0 {
        let s = String::new();
        proof {
            assert(encode_utf8(s@) =~= Seq::<u8>::empty());
            assert(data@.subrange(pos as int, pos + 1) =~= enc_str(s@));
            assert forall|s2: Seq<char>|
                (#[trigger] prefix_at(data@, pos as int, enc_str(s2)) && encode_utf8(s2).len()
                    < 0x1_0000_0000) implies (s@ == s2 && pos + 1 == pos + enc_str(s2).len()) by {
                lemma_str_prefix_parts(data@, pos as int, s2);
                assert(encode_utf8(s2).len() == 0);
                lemma_encode_empty(s2);
            }
        }
        return Some((s, pos + 1));
    }
    if flag != 0x0b {
        proof {
            assert forall|s2: Seq<char>| !(#[trigger] prefix_at(data@, pos as int, enc_str(s2))
                && encode_utf8(s2).len() < 0x1_0000_0000) by {
                if prefix_at(data@, pos as int, enc_str(s2)) && encode_utf8(s2).len()
                    < 0x1_0000_0000 {
                    lemma_str_prefix_parts(data@, pos as int, s2);
                }
            }
        }
        return None;
    }
    proof {
        assert forall|s2: Seq<char>|
            (#[trigger] prefix_at(data@, pos as int, enc_str(s2)) && encode_utf8(s2).len()
                < 0x1_0000_0000) implies (encode_utf8(s2).len() > 0 && prefix_at(
            data@,
            pos + 1,
            enc_uleb(encode_utf8(s2).len()),
        )) by {
            lemma_str_prefix_parts(data@, pos as int, s2);
            if encode_utf8(s2).len() == 0 {
                assert(data@[pos as int] == 0);
            }
        }
    }
    match read_uleb(data, pos + 1) {
        None => {
            proof {
                assert forall|s2: Seq<char>| !(#[trigger] prefix_at(data@, pos as int, enc_str(s2))
                    && encode_utf8(s2).len() < 0x1_0000_0000) by {
                    if prefix_at(data@, pos as int, enc_str(s2)) && encode_utf8(s2).len()
                        < 0x1_0000_0000 {
                        assert(prefix_at(
                            data@,
                            pos + 1,
                            enc_uleb((encode_utf8(s2).len() as u32) as nat),
                        ));
                    }
                }
            }
            None
        },
        Some((n, p1)) => {
            proof {
                assert forall|s2: Seq<char>|
                    (#[trigger] prefix_at(data@, pos as int, enc_str(s2)) && encode_utf8(s2).len()
                        < 0x1_0000_0000) implies (n == encode_utf8(s2).len() && p1 == pos + 1
                    + enc_uleb(encode_utf8(s2).len()).len() && prefix_at(
                    data@,
                    p1 as int,
                    encode_utf8(s2),
                )) by {
                    lemma_str_prefix_parts(data@, pos as int, s2);
                    assert(prefix_at(
                        data@,
                        pos + 1,
                        enc_uleb((encode_utf8(s2).len() as u32) as nat),
                    ));
                }
            }
            if n == 0 {
                // The empty string is written as the single byte 0x00.
                return None;
            }
            if (n as usize) > data.len() || p1 > data.len() - (n as usize) {
                return None;
            }
            let end: usize = p1 + (n as usize);
            let mut bytes: Vec<u8> = Vec::new();
            let mut i: usize = p1;
            while i < end
                invariant
                    p1 <= i <= end <= data@.len(),
                    bytes@ =~= data@.subrange(p1 as int, i as int),
                decreases end - i,
            {
                bytes.push(data[i]);
                proof {
                    assert(bytes@ =~= data@.subrange(p1 as int, i + 1));
                }
                i = i + 1;
            }
            proof {
                assert forall|s2: Seq<char>|
                    (#[trigger] prefix_at(data@, pos as int, enc_str(s2)) && encode_utf8(s2).len()
                        < 0x1_0000_0000) implies bytes@ == encode_utf8(s2) by {
                    assert(prefix_at(data@, p1 as int, encode_utf8(s2)));
                    assert(bytes@ =~= data@.subrange(p1 as int, end as int));
                }
            }
            match crate::decimal::bytes_to_string(&bytes) {
                None => {
                    proof {
                        assert forall|s2: Seq<char>| !(#[trigger] prefix_at(
                            data@,
                            pos as int,
                            enc_str(s2),
                        ) && encode_utf8(s2).len() < 0x1_0000_0000) by {
                            if prefix_at(data@, pos as int, enc_str(s2)) && encode_utf8(s2).len()
                                < 0x1_0000_0000 {
                                vstd::utf8::encode_utf8_valid_utf8(s2);
                            }
                        }
                    }
                    None
                },
                Some(s) => {
                    proof {
                        vstd::utf8::decode_utf8_encode_utf8(bytes@);
                        assert(encode_utf8(s@) =~= bytes@);
                        assert(data@.subrange(pos as int, end as int) =~= seq![0x0bu8]
                            + data@.subrange(pos + 1, p1 as int) + data@.subrange(
                            p1 as int,
                            end as int,
                        ));
                        assert(data@.subrange(pos as int, end as int) =~= enc_str(s@));
                        assert forall|s2: Seq<char>|
                            (#[trigger] prefix_at(data@, pos as int, enc_str(s2)) && encode_utf8(
                                s2,
                            ).len() < 0x1_0000_0000) implies (s@ == s2 && end == pos + enc_str(
                            s2,
                        ).len()) by {
                            assert(bytes@ == encode_utf8(s2));
                            vstd::utf8::encode_utf8_decode_utf8(s2);
                            assert(s@ == decode_utf8(encode_utf8(s2)));
                            lemma_enc_str_len(s2);
                            assert(enc_str(s2).len() == 1 + enc_uleb(encode_utf8(s2).len()).len()
                                + encode_utf8(s2).len());
                        }
                    }
                    Some((s, end))
                },
            }
        },
    }
}

/// The items of a list take four bytes each.
pub proof fn lemma_items_len(l: Seq<i32>)
    ensures
        enc_i32_list_items(l).len() == 4 * l.len(),
    decreases l.len(),
{
    if l.len() > 0 {
        lemma_le_bytes_len(i32_bits(l[0]), 4);
        lemma_items_len(l.drop_first());
    }
}

/// Read an `i32` list: `u16` count then that many values; every encoded
/// list at the read position is accepted and read back.
#[verifier::rlimit(100)]
pub fn read_i32_list(data: &Vec<u8>, pos: usize) -> (r: Option<(Vec<i32>, usize)>)
    ensures
        r matches Some((l, p)) ==> pos <= p <= data@.len() && l@.len() < 0x1_0000 && data@.subrange(
            pos as int,
            p as int,
        ) =~= enc_i32_list(l@),
        forall|l2: Seq<i32>|
            (#[trigger] prefix_at(data@, pos as int, enc_i32_list(l2)) && l2.len() < 0x1_0000)
                ==> (r matches Some((l, p)) && l@ == l2 && p == pos + enc_i32_list(l2).len()),
{
    proof {
        assert forall|l2: Seq<i32>|
            (#[trigger] prefix_at(data@, pos as int, enc_i32_list(l2)) && l2.len() < 0x1_0000)
                implies (prefix_at(data@, pos as int, le_bytes(l2.len() as nat, 2)) && prefix_at(
            data@,
            pos + 2,
            enc_i32_list_items(l2),
        ) && enc_i32_list(l2).len() == 2 + 4 * l2.len()) by {
            lemma_le_bytes_len(l2.len() as nat, 2);
            lemma_items_len(l2);
            if l2.len() == 0 {
                assert(enc_i32_list(l2) =~= le_bytes(l2.len() as nat, 2) + enc_i32_list_items(l2));
            } else {
                assert((l2.len() % 0x1_0000) as nat == l2.len() as nat);
            }
            lemma_prefix_split(
                data@,
                pos as int,
                le_bytes(l2.len() as nat, 2),
                enc_i32_list_items(l2),
            );
        }
    }
    match read_u16(data, pos) {
        None => None,
        Some((count, p0)) => {
            proof {
                assert forall|l2: Seq<i32>|
                    (#[trigger] prefix_at(data@, pos as int, enc_i32_list(l2)) && l2.len()
                        < 0x1_0000) implies count == l2.len() by {
                    lemma_le_bytes_len(l2.len() as nat, 2);
                    lemma_pow256_values();
                    assert(data@.subrange(pos as int, pos + 2) == le_bytes(l2.len() as nat, 2));
                    lemma_le_bytes_inj(count as nat, l2.len() as nat, 2);
                }
            }
            let mut l: Vec<i32> = Vec::new();
            let mut p: usize = p0;
            let mut k: u16 = 0;
            while k < count
                invariant
                    k <= count,
                    l@.len() == k as nat,
                    pos + 2 == p0 <= p <= data@.len(),
                    p == p0 + 4 * (k as int),
                    data@.subrange(p0 as int, p as int) =~= enc_i32_list_items(l@),
                    forall|l2: Seq<i32>|
                        (#[trigger] prefix_at(data@, pos as int, enc_i32_list(l2)) && l2.len()
                            < 0x1_0000) ==> (count == l2.len() && enc_i32_list(l2).len() == 2 + 4
                            * l2.len()),
                decreases count - k,
            {
                match read_i32(data, p) {
                    None => {
                        proof {
                            assert forall|l2: Seq<i32>| !(#[trigger] prefix_at(
                                data@,
                                pos as int,
                                enc_i32_list(l2),
                            ) && l2.len() < 0x1_0000) by {
                                if prefix_at(data@, pos as int, enc_i32_list(l2)) && l2.len()
                                    < 0x1_0000 {
                                    assert(pos + 2 + 4 * l2.len() <= data@.len());
                                    assert(k < count == l2.len());
                                }
                            }
                        }
                        return None;
                    },
                    Some((v, p2)) => {
                        proof {
                            lemma_items_snoc(l@, v);
                            assert(data@.subrange(p0 as int, p2 as int) =~= data@.subrange(
                                p0 as int,
                                p as int,
                            ) + data@.subrange(p as int, p2 as int));
                        }
                        l.push(v);
                        p = p2;
                        k = k + 1;
                    },
                }
            }
            proof {
                assert(data@.subrange(pos as int, p as int) =~= data@.subrange(pos as int, p0 as int)
                    + data@.subrange(p0 as int, p as int));
                assert(data@.subrange(pos as int, p as int) =~= enc_i32_list(l@));
                assert forall|l2: Seq<i32>|
                    (#[trigger] prefix_at(data@, pos as int, enc_i32_list(l2)) && l2.len()
                        < 0x1_0000) implies (l@ == l2 && p == pos + enc_i32_list(l2).len()) by {
                    assert(l@.len() == count == l2.len());
                    assert(p == pos + 2 + 4 * l2.len());
                    assert(data@.subrange(pos as int, pos + enc_i32_list(l2).len() as int)
                        == enc_i32_list(l2));
                    assert(data@.subrange(pos as int, p as int) == enc_i32_list(l2));
                    lemma_enc_list_inj(l@, l2);
                }
            }
            Some((l, p))
        },
    }
}

/// Equal encodings of equal-length lists mean equal lists.
proof fn lemma_enc_list_inj(a: Seq<i32>, b: Seq<i32>)
    requires
        a.len() == b.len(),
        a.len() < 0x1_0000,
        enc_i32_list(a) == enc_i32_list(b),
    ensures
        a =~= b,
{
    lemma_le_bytes_len(a.len() as nat, 2);
    lemma_le_bytes_len(b.len() as nat, 2);
    if a.len() == 0 {
    } else {
        assert(enc_i32_list(a) =~= le_bytes(a.len() as nat, 2) + enc_i32_list_items(a));
        assert(enc_i32_list(b) =~= le_bytes(b.len() as nat, 2) + enc_i32_list_items(b));
        assert(enc_i32_list_items(a) =~= enc_i32_list(a).skip(2));
        assert(enc_i32_list_items(b) =~= enc_i32_list(b).skip(2));
        lemma_enc_items_inj(a, b);
    }
}

proof fn lemma_enc_items_inj(a: Seq<i32>, b: Seq<i32>)
    requires
        a.len() == b.len(),
        enc_i32_list_items(a) == enc_i32_list_items(b),
    ensures
        a =~= b,
    decreases a.len(),
{
    if a.len() > 0 {
        lemma_le_bytes_len(i32_bits(a[0]), 4);
        lemma_le_bytes_len(i32_bits(b[0]), 4);
        lemma_items_len(a.drop_first());
        lemma_items_len(b.drop_first());
        assert(le_bytes(i32_bits(a[0]), 4) =~= enc_i32_list_items(a).subrange(0, 4));
        assert(le_bytes(i32_bits(b[0]), 4) =~= enc_i32_list_items(b).subrange(0, 4));
        lemma_bits_bounds(a[0], 0);
        lemma_bits_bounds(b[0], 0);
        lemma_le_bytes_inj(i32_bits(a[0]), i32_bits(b[0]), 4);
        lemma_i32_bits_inj(a[0], b[0]);
        assert(enc_i32_list_items(a).skip(4) =~= enc_i32_list_items(a.drop_first()));
        assert(enc_i32_list_items(b).skip(4) =~= enc_i32_list_items(b.drop_first()));
        lemma_enc_items_inj(a.drop_first(), b.drop_first());
        assert forall|i: int| 0 <= i < a.len() implies a[i] == b[i] by {
            if i > 0 {
                assert(a.drop_first()[i - 1] == a[i] && b.drop_first()[i - 1] == b[i]);
            }
        }
    }
}

} // verus!

verus! {

// ------------------------------------------------------------------
// Typed payloads read from the client.
// ------------------------------------------------------------------

/// A chat message as it crosses the wire.
#[derive(Debug, Clone)]
pub struct BanchoMessage {
    pub sender: String,
    pub content: String,
    pub target: String,
    pub sender_id: i32,
}

/// Wire form of a chat message.
pub open spec fn enc_message(sender: Seq<char>, content: Seq<char>, target: Seq<char>, sender_id: i32) -> Seq<u8> {
    enc_str(sender) + enc_str(content) + enc_str(target) + le_bytes(i32_bits(sender_id), 4)
}

impl BanchoMessage {
    pub open spec fn enc(&self) -> Seq<u8> {
        enc_message(self.sender@, self.content@, self.target@, self.sender_id)
    }
}

/// Bounded-size chat message fields, as any client-sent frame has.
pub open spec fn message_sizes_ok(sender: Seq<char>, content: Seq<char>, target: Seq<char>) -> bool {
    encode_utf8(sender).len() < 0x1_0000_0000 && encode_utf8(content).len() < 0x1_0000_0000
        && encode_utf8(target).len() < 0x1_0000_0000
}

pub fn read_message(data: &Vec<u8>, pos: usize) -> (r: Option<(BanchoMessage, usize)>)
    ensures
        r matches Some((m, p)) ==> pos <= p <= data@.len() && data@.subrange(
            pos as int,
            p as int,
        ) =~= m.enc(),
        forall|sender: Seq<char>, content: Seq<char>, target: Seq<char>, sid: i32|
            (#[trigger] prefix_at(
                data@,
                pos as int,
                enc_message(sender, content, target, sid),
            ) && message_sizes_ok(sender, content, target)) ==> (r matches Some((m, p)) && m.sender@
                == sender && m.content@ == content && m.target@ == target && m.sender_id == sid
                && p == pos + enc_message(sender, content, target, sid).len()),
{
    proof {
        assert forall|sender: Seq<char>, content: Seq<char>, target: Seq<char>, sid: i32|
            (#[trigger] prefix_at(
                data@,
                pos as int,
                enc_message(sender, content, target, sid),
            ) && message_sizes_ok(sender, content, target)) implies (prefix_at(
            data@,
            pos as int,
            enc_str(sender),
        ) && prefix_at(data@, pos + enc_str(sender).len(), enc_str(content)) && prefix_at(
            data@,
            pos + enc_str(sender).len() + enc_str(content).len(),
            enc_str(target),
        ) && prefix_at(
            data@,
            pos + enc_str(sender).len() + enc_str(content).len() + enc_str(target).len(),
            le_bytes(i32_bits(sid), 4),
        )) by {
            let a = enc_str(sender);
            let b = enc_str(content);
            let c = enc_str(target);
            let d2 = le_bytes(i32_bits(sid), 4);
            assert(enc_message(sender, content, target, sid) =~= a + (b + (c + d2)));
            lemma_prefix_split(data@, pos as int, a, b + (c + d2));
            lemma_prefix_split(data@, pos + a.len(), b, c + d2);
            lemma_prefix_split(data@, pos + a.len() + b.len(), c, d2);
        }
    }
    match read_str(data, pos) {
        None => None,
        Some((sender, p1)) => match read_str(data, p1) {
            None => None,
            Some((content, p2)) => match read_str(data, p2) {
                None => None,
                Some((target, p3)) => match read_i32(data, p3) {
                    None => {
                        proof {
                            assert forall|s2: Seq<char>, c2: Seq<char>, t2: Seq<char>, sid: i32| !(
                            #[trigger] prefix_at(
                                data@,
                                pos as int,
                                enc_message(s2, c2, t2, sid),
                            ) && message_sizes_ok(s2, c2, t2)) by {
                                if prefix_at(data@, pos as int, enc_message(s2, c2, t2, sid))
                                    && message_sizes_ok(s2, c2, t2) {
                                    lemma_le_bytes_len(i32_bits(sid), 4);
                                }
                            }
                        }
                        None
                    },
                    Some((sender_id, p4)) => {
                        let m = BanchoMessage { sender, content, target, sender_id };
                        proof {
                            assert(data@.subrange(pos as int, p4 as int) =~= data@.subrange(
                                pos as int,
                                p1 as int,
                            ) + data@.subrange(p1 as int, p2 as int) + data@.subrange(
                                p2 as int,
                                p3 as int,
                            ) + data@.subrange(p3 as int, p4 as int));
                            assert forall|s2: Seq<char>, c2: Seq<char>, t2: Seq<char>, sid: i32|
                                (#[trigger] prefix_at(
                                    data@,
                                    pos as int,
                                    enc_message(s2, c2, t2, sid),
                                ) && message_sizes_ok(s2, c2, t2)) implies (m.sender@ == s2
                                && m.content@ == c2 && m.target@ == t2 && m.sender_id == sid && p4
                                == pos + enc_message(s2, c2, t2, sid).len()) by {
                                lemma_le_bytes_len(i32_bits(sid), 4);
                                lemma_le_bytes_len(i32_bits(sender_id), 4);
                                assert(sender@ == s2 && p1 == pos + enc_str(s2).len());
                                assert(content@ == c2 && p2 == p1 + enc_str(c2).len());
                                assert(target@ == t2 && p3 == p2 + enc_str(t2).len());
                                assert(prefix_at(data@, p3 as int, le_bytes(i32_bits(sid), 4)));
                                assert(data@.subrange(p3 as int, p3 + 4) == le_bytes(
                                    i32_bits(sid),
                                    4,
                                ));
                                lemma_bits_bounds(sid, 0);
                                lemma_bits_bounds(sender_id, 0);
                                lemma_le_bytes_inj(i32_bits(sender_id), i32_bits(sid), 4);
                                lemma_i32_bits_inj(sender_id, sid);
                            }
                        }
                        Some((m, p4))
                    },
                },
            },
        },
    }
}

pub fn put_message(buf: &mut Vec<u8>, m: &BanchoMessage)
    requires
        encode_utf8(m.sender@).len() < 0x1_0000_0000,
        encode_utf8(m.content@).len() < 0x1_0000_0000,
        encode_utf8(m.target@).len() < 0x1_0000_0000,
    ensures
        final(buf)@ == old(buf)@ + m.enc(),
{
    put_str(buf, m.sender.as_str());
    put_str(buf, m.content.as_str());
    put_str(buf, m.target.as_str());
    put_i32(buf, m.sender_id);
    assert(buf@ =~= old(buf)@ + m.enc());
}

/// The client's action/status record.
#[derive(Debug, Clone)]
pub struct ClientChangeAction {
    pub online_status: u8,
    pub description: String,
    pub beatmap_md5: String,
    pub mods: u32,
    pub mode: u8,
    pub beatmap_id: i32,
}

impl ClientChangeAction {
    pub open spec fn enc(&self) -> Seq<u8> {
        seq![self.online_status] + enc_str(self.description@) + enc_str(self.beatmap_md5@)
            + le_bytes(self.mods as nat, 4) + seq![self.mode] + le_bytes(i32_bits(self.beatmap_id), 4)
    }
}

/// Bounded-size action fields, as any client-sent frame has.
pub open spec fn action_sizes_ok(description: Seq<char>, beatmap_md5: Seq<char>) -> bool {
    encode_utf8(description).len() < 0x1_0000_0000 && encode_utf8(beatmap_md5).len()
        < 0x1_0000_0000
}

/// Wire form of an action record with the given fields.
pub open spec fn enc_action(
    online_status: u8,
    description: Seq<char>,
    beatmap_md5: Seq<char>,
    mods: u32,
    mode: u8,
    beatmap_id: i32,
) -> Seq<u8> {
    seq![online_status] + enc_str(description) + enc_str(beatmap_md5) + le_bytes(mods as nat, 4)
        + seq![mode] + le_bytes(i32_bits(beatmap_id), 4)
}

#[verifier::rlimit(100)]
#[verifier::spinoff_prover]
pub fn read_change_action(data: &Vec<u8>, pos: usize) -> (r: Option<(ClientChangeAction, usize)>)
    ensures
        r matches Some((a, p)) ==> pos <= p <= data@.len() && data@.subrange(
            pos as int,
            p as int,
        ) =~= a.enc(),
        forall|os: u8, de: Seq<char>, md: Seq<char>, mo: u32, mm: u8, bid: i32|
            (#[trigger] prefix_at(data@, pos as int, enc_action(os, de, md, mo, mm, bid))
                && action_sizes_ok(de, md)) ==> (r matches Some((a, p)) && a.online_status == os
                && a.description@ == de && a.beatmap_md5@ == md && a.mods == mo && a.mode == mm
                && a.beatmap_id == bid && p == pos + enc_action(os, de, md, mo, mm, bid).len()),
{
    proof {
        assert forall|os: u8, de: Seq<char>, md: Seq<char>, mo: u32, mm: u8, bid: i32|
            (#[trigger] prefix_at(data@, pos as int, enc_action(os, de, md, mo, mm, bid))
                && action_sizes_ok(de, md)) implies (prefix_at(data@, pos as int, seq![os])
            && prefix_at(data@, pos + 1, enc_str(de)) && prefix_at(
            data@,
            pos + 1 + enc_str(de).len(),
            enc_str(md),
        ) && prefix_at(
            data@,
            pos + 1 + enc_str(de).len() + enc_str(md).len(),
            le_bytes(mo as nat, 4),
        ) && prefix_at(
            data@,
            pos + 1 + enc_str(de).len() + enc_str(md).len() + 4,
            seq![mm],
        ) && prefix_at(
            data@,
            pos + 1 + enc_str(de).len() + enc_str(md).len() + 5,
            le_bytes(i32_bits(bid), 4),
        ) && le_bytes(mo as nat, 4).len() == 4 && le_bytes(i32_bits(bid), 4).len() == 4) by {
            let p0 = seq![os];
            let p1s = enc_str(de);
            let p2s = enc_str(md);
            let p3s = le_bytes(mo as nat, 4);
            let p4s = seq![mm];
            let p5s = le_bytes(i32_bits(bid), 4);
            lemma_le_bytes_len(mo as nat, 4);
            lemma_le_bytes_len(i32_bits(bid), 4);
            assert(enc_action(os, de, md, mo, mm, bid) =~= p0 + (p1s + (p2s + (p3s + (p4s
                + p5s)))));
            lemma_prefix_split(data@, pos as int, p0, p1s + (p2s + (p3s + (p4s + p5s))));
            lemma_prefix_split(data@, pos + 1, p1s, p2s + (p3s + (p4s + p5s)));
            lemma_prefix_split(data@, pos + 1 + p1s.len(), p2s, p3s + (p4s + p5s));
            lemma_prefix_split(data@, pos + 1 + p1s.len() + p2s.len(), p3s, p4s + p5s);
            lemma_prefix_split(data@, pos + 1 + p1s.len() + p2s.len() + 4, p4s, p5s);
        }
    }
    match read_u8(data, pos) {
        None => None,
        Some((online_status, q1)) => match read_str(data, q1) {
            None => None,
            Some((description, q2)) => match read_str(data, q2) {
                None => None,
                Some((beatmap_md5, q3)) => match read_u32(data, q3) {
                    None => None,
                    Some((mods, q4)) => match read_u8(data, q4) {
                        None => None,
                        Some((mode, q5)) => match read_i32(data, q5) {
                            None => None,
                            Some((beatmap_id, q6)) => {
                                let a = ClientChangeAction {
                                    online_status,
                                    description,
                                    beatmap_md5,
                                    mods,
                                    mode,
                                    beatmap_id,
                                };
                                proof {
                                    assert(data@.subrange(pos as int, q6 as int) =~= data@.subrange(
                                        pos as int,
                                        q1 as int,
                                    ) + data@.subrange(q1 as int, q2 as int) + data@.subrange(
                                        q2 as int,
                                        q3 as int,
                                    ) + data@.subrange(q3 as int, q4 as int) + data@.subrange(
                                        q4 as int,
                                        q5 as int,
                                    ) + data@.subrange(q5 as int, q6 as int));
                                    assert forall|
                                        os: u8,
                                        de: Seq<char>,
                                        md: Seq<char>,
                                        mo: u32,
                                        mm: u8,
                                        bid: i32,
                                    |
                                        (#[trigger] prefix_at(
                                            data@,
                                            pos as int,
                                            enc_action(os, de, md, mo, mm, bid),
                                        ) && action_sizes_ok(de, md)) implies (a.online_status
                                        == os && a.description@ == de && a.beatmap_md5@ == md
                                        && a.mods == mo && a.mode == mm && a.beatmap_id == bid
                                        && q6 == pos + enc_action(os, de, md, mo, mm, bid).len()) by {
                                        lemma_le_bytes_len(mo as nat, 4);
                                        lemma_le_bytes_len(mods as nat, 4);
                                        lemma_le_bytes_len(i32_bits(bid), 4);
                                        lemma_le_bytes_len(i32_bits(beatmap_id), 4);
                                        assert(data@.subrange(pos as int, pos + 1)[0] == data@[
                                            pos as int
                                        ]);
                                        assert(online_status == os);
                                        assert(description@ == de && q2 == q1 + enc_str(de).len());
                                        assert(beatmap_md5@ == md && q3 == q2 + enc_str(md).len());
                                        assert(prefix_at(data@, q3 as int, le_bytes(mo as nat, 4)));
                                        assert(data@.subrange(q3 as int, q3 + 4) == le_bytes(
                                            mo as nat,
                                            4,
                                        ));
                                        lemma_pow256_values();
                                        lemma_le_bytes_inj(mods as nat, mo as nat, 4);
                                        assert(prefix_at(data@, q4 as int, seq![mm]));
                                        assert(data@.subrange(q4 as int, q4 + 1)[0] == data@[
                                            q4 as int
                                        ]);
                                        assert(mode == mm);
                                        assert(prefix_at(
                                            data@,
                                            q5 as int,
                                            le_bytes(i32_bits(bid), 4),
                                        ));
                                        assert(data@.subrange(q5 as int, q5 + 4) == le_bytes(
                                            i32_bits(bid),
                                            4,
                                        ));
                                        lemma_bits_bounds(bid, 0);
                                        lemma_bits_bounds(beatmap_id, 0);
                                        lemma_le_bytes_inj(i32_bits(beatmap_id), i32_bits(bid), 4);
                                        lemma_i32_bits_inj(beatmap_id, bid);
                                    }
                                }
                                Some((a, q6))
                            },
                        },
                    },
                },
            },
        },
    }
}

pub fn put_change_action(buf: &mut Vec<u8>, a: &ClientChangeAction)
    requires
        encode_utf8(a.description@).len() < 0x1_0000_0000,
        encode_utf8(a.beatmap_md5@).len() < 0x1_0000_0000,
    ensures
        final(buf)@ == old(buf)@ + a.enc(),
{
    put_u8(buf, a.online_status);
    put_str(buf, a.description.as_str());
    put_str(buf, a.beatmap_md5.as_str());
    put_u32(buf, a.mods);
    put_u8(buf, a.mode);
    put_i32(buf, a.beatmap_id);
    assert(buf@ =~= old(buf)@ + a.enc());
}

// ------------------------------------------------------------------
// Frames.
// ------------------------------------------------------------------

/// Read one frame starting at `pos`: its id, its payload (copied out), and
/// the position after it. The zero filler byte of the header must be zero,
/// as every writer emits it; every frame encoded at the read position is
/// accepted and read back.
#[verifier::rlimit(100)]
pub fn next_frame(data: &Vec<u8>, pos: usize) -> (r: Option<(u16, Vec<u8>, usize)>)
    ensures
        r matches Some((id, payload, p)) ==> pos <= p <= data@.len() && payload@.len()
            < 0x1_0000_0000 && data@.subrange(pos as int, p as int) =~= frame(id, payload@),
        forall|id2: u16, payload2: Seq<u8>|
            (#[trigger] prefix_at(data@, pos as int, frame(id2, payload2)) && payload2.len()
                < 0x1_0000_0000) ==> (r matches Some((id, payload, p)) && id == id2 && payload@
                == payload2 && p == pos + frame(id2, payload2).len()),
{
    proof {
        assert forall|id2: u16, payload2: Seq<u8>|
            (#[trigger] prefix_at(data@, pos as int, frame(id2, payload2)) && payload2.len()
                < 0x1_0000_0000) implies (prefix_at(data@, pos as int, le_bytes(id2 as nat, 2))
            && prefix_at(data@, pos + 2, seq![0u8]) && prefix_at(
            data@,
            pos + 3,
            le_bytes(payload2.len() as nat, 4),
        ) && prefix_at(data@, pos + 7, payload2) && frame(id2, payload2).len() == 7
            + payload2.len()) by {
            lemma_le_bytes_len(id2 as nat, 2);
            lemma_le_bytes_len(payload2.len() % 0x1_0000_0000, 4);
            assert(payload2.len() % 0x1_0000_0000 == payload2.len() as nat);
            assert(frame(id2, payload2) =~= le_bytes(id2 as nat, 2) + (seq![0u8] + (le_bytes(
                payload2.len() as nat,
                4,
            ) + payload2)));
            lemma_prefix_split(
                data@,
                pos as int,
                le_bytes(id2 as nat, 2),
                seq![0u8] + (le_bytes(payload2.len() as nat, 4) + payload2),
            );
            lemma_prefix_split(
                data@,
                pos + 2,
                seq![0u8],
                le_bytes(payload2.len() as nat, 4) + payload2,
            );
            lemma_prefix_split(data@, pos + 3, le_bytes(payload2.len() as nat, 4), payload2);
        }
    }
    match read_u16(data, pos) {
        None => None,
        Some((id, p1)) => match read_u8(data, p1) {
            None => None,
            Some((zero, p2)) => {
                proof {
                    assert forall|id2: u16, payload2: Seq<u8>|
                        (#[trigger] prefix_at(data@, pos as int, frame(id2, payload2))
                            && payload2.len() < 0x1_0000_0000) implies (id == id2 && zero == 0) by {
                        lemma_le_bytes_len(id2 as nat, 2);
                        assert(data@.subrange(pos as int, pos + 2) == le_bytes(id2 as nat, 2));
                        lemma_pow256_values();
                        lemma_le_bytes_inj(id as nat, id2 as nat, 2);
                        assert(data@.subrange(pos + 2, pos + 3)[0] == data@[pos + 2]);
                    }
                }
                if zero != 0 {
                    return None;
                }
                match read_u32(data, p2) {
                    None => None,
                    Some((len, p3)) => {
                        proof {
                            assert forall|id2: u16, payload2: Seq<u8>|
                                (#[trigger] prefix_at(data@, pos as int, frame(id2, payload2))
                                    && payload2.len() < 0x1_0000_0000) implies (len
                                == payload2.len() && pos + 7 + payload2.len() <= data@.len()) by {
                                lemma_le_bytes_len(payload2.len() as nat, 4);
                                assert(data@.subrange(pos + 3, pos + 7) == le_bytes(
                                    payload2.len() as nat,
                                    4,
                                ));
                                lemma_pow256_values();
                                lemma_le_bytes_inj(len as nat, payload2.len() as nat, 4);
                            }
                        }
                        if (len as usize) > data.len() || p3 > data.len() - (len as usize) {
                            return None;
                        }
                        let end: usize = p3 + (len as usize);
                        let mut payload: Vec<u8> = Vec::new();
                        let mut i: usize = p3;
                        while i < end
                            invariant
                                p3 <= i <= end <= data@.len(),
                                payload@ =~= data@.subrange(p3 as int, i as int),
                            decreases end - i,
                        {
                            payload.push(data[i]);
                            proof {
                                assert(payload@ =~= data@.subrange(p3 as int, i + 1));
                            }
                            i = i + 1;
                        }
                        proof {
                            assert(data@.subrange(pos as int, end as int) =~= data@.subrange(
                                pos as int,
                                p1 as int,
                            ) + data@.subrange(p1 as int, p2 as int) + data@.subrange(
                                p2 as int,
                                p3 as int,
                            ) + data@.subrange(p3 as int, end as int));
                            assert(data@.subrange(pos as int, end as int) =~= frame(id, payload@));
                            assert forall|id2: u16, payload2: Seq<u8>|
                                (#[trigger] prefix_at(data@, pos as int, frame(id2, payload2))
                                    && payload2.len() < 0x1_0000_0000) implies (payload@
                                == payload2 && end == pos + frame(id2, payload2).len()) by {
                                assert(data@.subrange(pos + 7, pos + 7 + payload2.len() as int)
                                    == payload2);
                                assert(payload@ =~= data@.subrange(p3 as int, end as int));
                            }
                        }
                        Some((id, payload, end))
                    },
                }
            },
        },
    }
}

/// Build a single frame as a fresh byte vector.
pub fn make_frame(id: u16, payload: &Vec<u8>) -> (r: Vec<u8>)
    requires
        payload@.len() < 0x1_0000_0000,
    ensures
        r@ == frame(id, payload@),
{
    let mut buf: Vec<u8> = Vec::new();
    put_frame(&mut buf, id, payload);
    assert(buf@ =~= frame(id, payload@));
    buf
}

} // verus!

verus! {

// ------------------------------------------------------------------
// Server-bound packets, each built as one frame with exact contents.
// ------------------------------------------------------------------

/// Payload bytes of each packet the gateway sends, by packet.
pub open spec fn spec_login_reply(user_id: i32) -> Seq<u8> {
    frame(BANCHO_USER_LOGIN_REPLY, le_bytes(i32_bits(user_id), 4))
}

/// A successful login names the user id; failures use negative codes, of
/// which -1 means invalid credentials and -5 a server error.
pub fn login_reply(user_id: i32) -> (r: Vec<u8>)
    ensures
        r@ == spec_login_reply(user_id),
{
    let mut payload: Vec<u8> = Vec::new();
    put_i32(&mut payload, user_id);
    proof {
        lemma_le_bytes_len(i32_bits(user_id), 4);
    }
    make_frame(BANCHO_USER_LOGIN_REPLY, &payload)
}

pub open spec fn spec_notification(msg: Seq<char>) -> Seq<u8> {
    frame(BANCHO_NOTIFICATION, enc_str(msg))
}

pub fn notification(msg: &str) -> (r: Vec<u8>)
    requires
        encode_utf8(msg@).len() < 0x1000_0000,
    ensures
        r@ == spec_notification(msg@),
{
    let mut payload: Vec<u8> = Vec::new();
    put_str(&mut payload, msg);
    proof {
        lemma_enc_str_len(msg@);
    }
    make_frame(BANCHO_NOTIFICATION, &payload)
}

pub open spec fn spec_send_message(sender: Seq<char>, content: Seq<char>, target: Seq<char>, sender_id: i32) -> Seq<u8> {
    frame(BANCHO_SEND_MESSAGE, enc_message(sender, content, target, sender_id))
}

pub fn send_message(m: &BanchoMessage) -> (r: Vec<u8>)
    requires
        encode_utf8(m.sender@).len() < 0x1000_0000,
        encode_utf8(m.content@).len() < 0x1000_0000,
        encode_utf8(m.target@).len() < 0x1000_0000,
    ensures
        r@ == spec_send_message(m.sender@, m.content@, m.target@, m.sender_id),
{
    let mut payload: Vec<u8> = Vec::new();
    put_message(&mut payload, m);
    proof {
        lemma_enc_str_len(m.sender@);
        lemma_enc_str_len(m.content@);
        lemma_enc_str_len(m.target@);
        lemma_le_bytes_len(i32_bits(m.sender_id), 4);
    }
    make_frame(BANCHO_SEND_MESSAGE, &payload)
}

pub open spec fn spec_user_logout(user_id: i32) -> Seq<u8> {
    frame(BANCHO_USER_LOGOUT, le_bytes(i32_bits(user_id), 4) + seq![0u8])
}

pub fn user_logout(user_id: i32) -> (r: Vec<u8>)
    ensures
        r@ == spec_user_logout(user_id),
{
    let mut payload: Vec<u8> = Vec::new();
    put_i32(&mut payload, user_id);
    put_u8(&mut payload, 0);
    proof {
        lemma_le_bytes_len(i32_bits(user_id), 4);
    }
    make_frame(BANCHO_USER_LOGOUT, &payload)
}

pub open spec fn spec_i32_packet(id: u16, v: i32) -> Seq<u8> {
    frame(id, le_bytes(i32_bits(v), 4))
}

fn i32_packet(id: u16, v: i32) -> (r: Vec<u8>)
    ensures
        r@ == spec_i32_packet(id, v),
{
    let mut payload: Vec<u8> = Vec::new();
    put_i32(&mut payload, v);
    proof {
        lemma_le_bytes_len(i32_bits(v), 4);
    }
    make_frame(id, &payload)
}

pub fn spectator_joined(user_id: i32) -> (r: Vec<u8>)
    ensures
        r@ == spec_i32_packet(BANCHO_SPECTATOR_JOINED, user_id),
{
    i32_packet(BANCHO_SPECTATOR_JOINED, user_id)
}

pub fn spectator_left(user_id: i32) -> (r: Vec<u8>)
    ensures
        r@ == spec_i32_packet(BANCHO_SPECTATOR_LEFT, user_id),
{
    i32_packet(BANCHO_SPECTATOR_LEFT, user_id)
}

pub fn fellow_spectator_joined(user_id: i32) -> (r: Vec<u8>)
    ensures
        r@ == spec_i32_packet(BANCHO_FELLOW_SPECTATOR_JOINED, user_id),
{
    i32_packet(BANCHO_FELLOW_SPECTATOR_JOINED, user_id)
}

pub fn fellow_spectator_left(user_id: i32) -> (r: Vec<u8>)
    ensures
        r@ == spec_i32_packet(BANCHO_FELLOW_SPECTATOR_LEFT, user_id),
{
    i32_packet(BANCHO_FELLOW_SPECTATOR_LEFT, user_id)
}

pub fn user_silenced(user_id: i32) -> (r: Vec<u8>)
    ensures
        r@ == spec_i32_packet(BANCHO_USER_SILENCED, user_id),
{
    i32_packet(BANCHO_USER_SILENCED, user_id)
}

pub fn silence_end(seconds: i32) -> (r: Vec<u8>)
    ensures
        r@ == spec_i32_packet(BANCHO_SILENCE_END, seconds),
{
    i32_packet(BANCHO_SILENCE_END, seconds)
}

pub fn bancho_privileges(privileges: i32) -> (r: Vec<u8>)
    ensures
        r@ == spec_i32_packet(BANCHO_PRIVILEGES, privileges),
{
    i32_packet(BANCHO_PRIVILEGES, privileges)
}

pub fn protocol_version(version: i32) -> (r: Vec<u8>)
    ensures
        r@ == spec_i32_packet(BANCHO_PROTOCOL_VERSION, version),
{
    i32_packet(BANCHO_PROTOCOL_VERSION, version)
}

pub fn bancho_restart(millis: i32) -> (r: Vec<u8>)
    ensures
        r@ == spec_i32_packet(BANCHO_RESTART, millis),
{
    i32_packet(BANCHO_RESTART, millis)
}

pub open spec fn spec_channel_info_end() -> Seq<u8> {
    frame(BANCHO_CHANNEL_INFO_END, Seq::empty())
}

pub fn channel_info_end() -> (r: Vec<u8>)
    ensures
        r@ == spec_channel_info_end(),
{
    let payload: Vec<u8> = Vec::new();
    make_frame(BANCHO_CHANNEL_INFO_END, &payload)
}

pub open spec fn spec_channel_join(name: Seq<char>) -> Seq<u8> {
    frame(BANCHO_CHANNEL_JOIN_SUCCESS, enc_str(name))
}

pub fn channel_join(name: &str) -> (r: Vec<u8>)
    requires
        encode_utf8(name@).len() < 0x1000_0000,
    ensures
        r@ == spec_channel_join(name@),
{
    let mut payload: Vec<u8> = Vec::new();
    put_str(&mut payload, name);
    proof {
        lemma_enc_str_len(name@);
    }
    make_frame(BANCHO_CHANNEL_JOIN_SUCCESS, &payload)
}

pub open spec fn spec_channel_kick(name: Seq<char>) -> Seq<u8> {
    frame(BANCHO_CHANNEL_KICK, enc_str(name))
}

pub fn channel_kick(name: &str) -> (r: Vec<u8>)
    requires
        encode_utf8(name@).len() < 0x1000_0000,
    ensures
        r@ == spec_channel_kick(name@),
{
    let mut payload: Vec<u8> = Vec::new();
    put_str(&mut payload, name);
    proof {
        lemma_enc_str_len(name@);
    }
    make_frame(BANCHO_CHANNEL_KICK, &payload)
}

pub open spec fn spec_channel_info(name: Seq<char>, description: Seq<char>, user_count: u16) -> Seq<u8> {
    frame(BANCHO_CHANNEL_INFO, enc_str(name) + enc_str(description) + le_bytes(user_count as nat, 2))
}

pub fn channel_info(name: &str, description: &str, user_count: u16) -> (r: Vec<u8>)
    requires
        encode_utf8(name@).len() < 0x1000_0000,
        encode_utf8(description@).len() < 0x1000_0000,
    ensures
        r@ == spec_channel_info(name@, description@, user_count),
{
    let mut payload: Vec<u8> = Vec::new();
    put_str(&mut payload, name);
    put_str(&mut payload, description);
    put_u16(&mut payload, user_count);
    assert(payload@ =~= enc_str(name@) + enc_str(description@) + le_bytes(user_count as nat, 2));
    proof {
        lemma_enc_str_len(name@);
        lemma_enc_str_len(description@);
        lemma_le_bytes_len(user_count as nat, 2);
    }
    make_frame(BANCHO_CHANNEL_INFO, &payload)
}

pub open spec fn spec_spectate_frames(data: Seq<u8>) -> Seq<u8> {
    frame(BANCHO_SPECTATE_FRAMES, data)
}

/// Replay frames are relayed to spectators byte for byte.
pub fn spectate_frames(data: &Vec<u8>) -> (r: Vec<u8>)
    requires
        data@.len() < 0x1_0000_0000,
    ensures
        r@ == spec_spectate_frames(data@),
{
    make_frame(BANCHO_SPECTATE_FRAMES, data)
}

/// Payload of the user-statistics packet. The accuracy travels as the raw
/// bits of an IEEE single, computed where the packet is assembled.
pub open spec fn spec_user_stats_payload(
    user_id: i32,
    online_status: u8,
    description: Seq<char>,
    beatmap_md5: Seq<char>,
    mods: u32,
    mode: u8,
    beatmap_id: i32,
    ranked_score: i64,
    accuracy_bits: u32,
    playcount: i32,
    total_score: i64,
    rank: i32,
    performance: u16,
) -> Seq<u8> {
    le_bytes(i32_bits(user_id), 4) + seq![online_status] + enc_str(description) + enc_str(
        beatmap_md5,
    ) + le_bytes(mods as nat, 4) + seq![mode] + le_bytes(i32_bits(beatmap_id), 4) + le_bytes(
        i64_bits(ranked_score),
        8,
    ) + le_bytes(accuracy_bits as nat, 4) + le_bytes(i32_bits(playcount), 4) + le_bytes(
        i64_bits(total_score),
        8,
    ) + le_bytes(i32_bits(rank), 4) + le_bytes(performance as nat, 2)
}

pub open spec fn spec_user_stats(
    user_id: i32,
    online_status: u8,
    description: Seq<char>,
    beatmap_md5: Seq<char>,
    mods: u32,
    mode: u8,
    beatmap_id: i32,
    ranked_score: i64,
    accuracy_bits: u32,
    playcount: i32,
    total_score: i64,
    rank: i32,
    performance: u16,
) -> Seq<u8> {
    frame(
        BANCHO_USER_STATS,
        spec_user_stats_payload(
            user_id,
            online_status,
            description,
            beatmap_md5,
            mods,
            mode,
            beatmap_id,
            ranked_score,
            accuracy_bits,
            playcount,
            total_score,
            rank,
            performance,
        ),
    )
}

pub fn user_stats(
    user_id: i32,
    online_status: u8,
    description: &str,
    beatmap_md5: &str,
    mods: u32,
    mode: u8,
    beatmap_id: i32,
    ranked_score: i64,
    accuracy_bits: u32,
    playcount: i32,
    total_score: i64,
    rank: i32,
    performance: u16,
) -> (r: Vec<u8>)
    requires
        encode_utf8(description@).len() < 0x1000_0000,
        encode_utf8(beatmap_md5@).len() < 0x1000_0000,
    ensures
        r@ == spec_user_stats(
            user_id,
            online_status,
            description@,
            beatmap_md5@,
            mods,
            mode,
            beatmap_id,
            ranked_score,
            accuracy_bits,
            playcount,
            total_score,
            rank,
            performance,
        ),
{
    let mut payload: Vec<u8> = Vec::new();
    put_i32(&mut payload, user_id);
    put_u8(&mut payload, online_status);
    put_str(&mut payload, description);
    put_str(&mut payload, beatmap_md5);
    put_u32(&mut payload, mods);
    put_u8(&mut payload, mode);
    put_i32(&mut payload, beatmap_id);
    put_i64(&mut payload, ranked_score);
    put_u32(&mut payload, accuracy_bits);
    put_i32(&mut payload, playcount);
    put_i64(&mut payload, total_score);
    put_i32(&mut payload, rank);
    put_u16(&mut payload, performance);
    proof {
        lemma_enc_str_len(description@);
        lemma_enc_str_len(beatmap_md5@);
    }
    assert(payload@ =~= spec_user_stats_payload(
        user_id,
        online_status,
        description@,
        beatmap_md5@,
        mods,
        mode,
        beatmap_id,
        ranked_score,
        accuracy_bits,
        playcount,
        total_score,
        rank,
        performance,
    ));
    proof {
        lemma_le_bytes_len(i32_bits(user_id), 4);
        lemma_le_bytes_len(i32_bits(beatmap_id), 4);
        lemma_le_bytes_len(i32_bits(playcount), 4);
        lemma_le_bytes_len(i32_bits(rank), 4);
        lemma_le_bytes_len(i64_bits(ranked_score), 8);
        lemma_le_bytes_len(i64_bits(total_score), 8);
        lemma_le_bytes_len(mods as nat, 4);
        lemma_le_bytes_len(accuracy_bits as nat, 4);
        lemma_le_bytes_len(performance as nat, 2);
    }
    make_frame(BANCHO_USER_STATS, &payload)
}

/// Payload of the user-presence packet. Latitude and longitude travel as raw
/// IEEE single bits; the UTC offset is sent shifted by 24 as the protocol
/// requires.
pub open spec fn spec_user_presence(
    user_id: i32,
    username: Seq<char>,
    utc_offset_plus_24: u8,
    country_code: u8,
    privileges: u8,
    longitude_bits: u32,
    latitude_bits: u32,
    rank: i32,
) -> Seq<u8> {
    frame(
        BANCHO_USER_PRESENCE,
        le_bytes(i32_bits(user_id), 4) + enc_str(username) + seq![utc_offset_plus_24, country_code, privileges]
            + le_bytes(longitude_bits as nat, 4) + le_bytes(latitude_bits as nat, 4) + le_bytes(
            i32_bits(rank),
            4,
        ),
    )
}

pub fn user_presence(
    user_id: i32,
    username: &str,
    utc_offset_plus_24: u8,
    country_code: u8,
    privileges: u8,
    longitude_bits: u32,
    latitude_bits: u32,
    rank: i32,
) -> (r: Vec<u8>)
    requires
        encode_utf8(username@).len() < 0x1000_0000,
    ensures
        r@ == spec_user_presence(
            user_id,
            username@,
            utc_offset_plus_24,
            country_code,
            privileges,
            longitude_bits,
            latitude_bits,
            rank,
        ),
{
    let mut payload: Vec<u8> = Vec::new();
    put_i32(&mut payload, user_id);
    put_str(&mut payload, username);
    put_u8(&mut payload, utc_offset_plus_24);
    put_u8(&mut payload, country_code);
    put_u8(&mut payload, privileges);
    put_u32(&mut payload, longitude_bits);
    put_u32(&mut payload, latitude_bits);
    put_i32(&mut payload, rank);
    assert(payload@ =~= le_bytes(i32_bits(user_id), 4) + enc_str(username@) + seq![
        utc_offset_plus_24,
        country_code,
        privileges,
    ] + le_bytes(longitude_bits as nat, 4) + le_bytes(latitude_bits as nat, 4) + le_bytes(
        i32_bits(rank),
        4,
    ));
    proof {
        lemma_le_bytes_len(i32_bits(user_id), 4);
        lemma_le_bytes_len(longitude_bits as nat, 4);
        lemma_le_bytes_len(latitude_bits as nat, 4);
        lemma_le_bytes_len(i32_bits(rank), 4);
        lemma_enc_str_len(username@);
    }
    make_frame(BANCHO_USER_PRESENCE, &payload)
}

} // verus!
