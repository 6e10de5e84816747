//! Decimal numbers as ASCII bytes: rendering and parsing, each pinned to a
//! canonical spec-level form. Protocol responses are byte strings, so both
//! directions work on bytes.

use vstd::prelude::*;
use vstd::utf8::{decode_utf8, valid_utf8};

verus! {

/// Relies on String::from_utf8: returns the string whose UTF-8 encoding is
/// the given bytes, and fails exactly on invalid UTF-8.
#[verifier::external_body]
pub fn bytes_to_string(b: &Vec<u8>) -> (r: Option<String>)
    ensures
        r matches Some(s) ==> valid_utf8(b@) && s@ == decode_utf8(b@),
        r is None ==> !valid_utf8(b@),
{
    String::from_utf8(b.clone()).ok()
}

/// Canonical decimal rendering of `n` (no leading zeros, most significant
/// digit first).
pub open spec fn dec_bytes(n: nat) -> Seq<u8>
    decreases n,
{
    if n < 10 {
        seq![(48 + n) as u8]
    } else {
        dec_bytes(n / 10) + seq![(48 + n % 10) as u8]
    }
}

/// Rendering of a signed value: a minus sign before the magnitude.
pub open spec fn dec_bytes_signed(v: int) -> Seq<u8> {
    if v < 0 {
        seq![45u8] + dec_bytes((-v) as nat)
    } else {
        dec_bytes(v as nat)
    }
}

/// Does the byte sequence consist only of decimal digits, at least one?
pub open spec fn is_digits(b: Seq<u8>) -> bool {
    b.len() > 0 && forall|i: int| 0 <= i < b.len() ==> 48 <= #[trigger] b[i] <= 57
}

/// The number the digit sequence denotes.
pub open spec fn dec_val(b: Seq<u8>) -> nat
    decreases b.len(),
{
    if b.len() == 0 {
        0
    } else {
        dec_val(b.drop_last()) * 10 + if b.last() >= 48 {
            (b.last() - 48) as nat
        } else {
            0
        }
    }
}

/// Append the canonical decimal rendering of `v`.
pub fn put_dec_u64(buf: &mut Vec<u8>, v: u64)
    ensures
        final(buf)@ == old(buf)@ + dec_bytes(v as nat),
    decreases v,
{
    if v < 10 {
        buf.push(48 + (v as u8));
        assert(buf@ =~= old(buf)@ + dec_bytes(v as nat));
    } else {
        put_dec_u64(buf, v / 10);
        buf.push(48 + ((v % 10) as u8));
        assert(buf@ =~= old(buf)@ + dec_bytes(v as nat));
    }
}

/// Append the canonical decimal rendering of a signed value.
pub fn put_dec_i64(buf: &mut Vec<u8>, v: i64)
    ensures
        final(buf)@ == old(buf)@ + dec_bytes_signed(v as int),
{
    if v < 0 {
        buf.push(45);
        let m: u64 = if v == i64::MIN {
            0x8000_0000_0000_0000u64
        } else {
            (-v) as u64
        };
        put_dec_u64(buf, m);
        assert(buf@ =~= old(buf)@ + dec_bytes_signed(v as int));
    } else {
        put_dec_u64(buf, v as u64);
    }
}

/// A basis-point value rendered with two decimals: the whole percent, a
/// dot, and two digits of hundredths.
pub open spec fn dec2_bytes(bp: nat) -> Seq<u8> {
    dec_bytes(bp / 100) + seq![46u8, (48 + (bp % 100) / 10) as u8, (48 + bp % 10) as u8]
}

/// Append the two-decimal rendering of a basis-point value.
pub fn put_dec2(buf: &mut Vec<u8>, bp: u32)
    ensures
        final(buf)@ == old(buf)@ + dec2_bytes(bp as nat),
{
    put_dec_u64(buf, (bp / 100) as u64);
    buf.push(46);
    buf.push(48 + ((bp % 100 / 10) as u8));
    buf.push(48 + ((bp % 10) as u8));
    proof {
        assert(buf@ =~= old(buf)@ + dec2_bytes(bp as nat));
    }
}

/// Parse a digit sequence. Succeeds exactly on all-digit inputs whose value
/// fits in a `u64`, and then returns that value.
pub fn parse_u64(b: &Vec<u8>) -> (r: Option<u64>)
    ensures
        r matches Some(v) ==> is_digits(b@) && v == dec_val(b@),
        r is None ==> !is_digits(b@) || dec_val(b@) > u64::MAX,
{
    if b.len() == 0 {
        return None;
    }
    let mut v: u64 = 0;
    let mut i: usize = 0;
    while i < b.len()
        invariant
            0 <= i <= b@.len(),
            forall|j: int| 0 <= j < i ==> 48 <= #[trigger] b@[j] <= 57,
            v == dec_val(b@.subrange(0, i as int)),
        decreases b@.len() - i,
    {
        let c = b[i];
        if c < 48 || c > 57 {
            proof {
                assert(!is_digits(b@));
            }
            return None;
        }
        let d: u64 = (c - 48) as u64;
        if v > (u64::MAX - d) / 10 {
            proof {
                lemma_dec_val_monotonic(b@, i as int);
                assert(b@.subrange(0, i + 1).drop_last() =~= b@.subrange(0, i as int));
                assert(dec_val(b@.subrange(0, i + 1)) == v * 10 + d);
                assert(v * 10 + d > u64::MAX) by (nonlinear_arith)
                    requires
                        v > (u64::MAX - d) / 10,
                        d <= 9,
                        v >= 0,
                ;
            }
            return None;
        }
        proof {
            assert(b@.subrange(0, i + 1).drop_last() =~= b@.subrange(0, i as int));
            assert(b@.subrange(0, i + 1).last() == c);
        }
        v = v * 10 + d;
        i = i + 1;
    }
    proof {
        assert(b@.subrange(0, b@.len() as int) =~= b@);
    }
    Some(v)
}

/// A longer digit prefix never denotes a smaller value.
proof fn lemma_dec_val_monotonic(b: Seq<u8>, i: int)
    requires
        0 <= i < b.len(),
    ensures
        dec_val(b) >= dec_val(b.subrange(0, i + 1)),
    decreases b.len() - i,
{
    if i + 1 == b.len() {
        assert(b.subrange(0, i + 1) =~= b);
    } else {
        lemma_dec_val_monotonic(b, i + 1);
        assert(b.subrange(0, i + 2).drop_last() =~= b.subrange(0, i + 1));
        assert(dec_val(b.subrange(0, i + 2)) >= dec_val(b.subrange(0, i + 1))) by (nonlinear_arith)
            requires
                dec_val(b.subrange(0, i + 2)) == dec_val(b.subrange(0, i + 1)) * 10 + if b.subrange(
                    0,
                    i + 2,
                ).last() >= 48 {
                    (b.subrange(0, i + 2).last() - 48) as nat
                } else {
                    0
                },
        ;
    }
}

/// Rendering then parsing gives the value back: the decimal forms above are
/// inverse to each other.
pub proof fn lemma_dec_roundtrip(n: nat)
    ensures
        is_digits(dec_bytes(n)),
        dec_val(dec_bytes(n)) == n,
    decreases n,
{
    if n < 10 {
        assert(dec_bytes(n) =~= seq![(48 + n) as u8]);
        assert(dec_bytes(n).drop_last() =~= Seq::<u8>::empty());
        assert(dec_bytes(n).last() == (48 + n) as u8);
        assert(dec_val(dec_bytes(n)) == dec_val(Seq::<u8>::empty()) * 10 + n);
        assert(dec_val(dec_bytes(n)) == n);
        assert(48 <= dec_bytes(n)[0] <= 57);
    } else {
        lemma_dec_roundtrip(n / 10);
        assert(dec_bytes(n).drop_last() =~= dec_bytes(n / 10));
        assert(dec_bytes(n).last() == (48 + n % 10) as u8);
        assert(dec_val(dec_bytes(n)) == (n / 10) * 10 + n % 10);
        assert((n / 10) * 10 + n % 10 == n) by (nonlinear_arith);
        assert(forall|i: int|
            0 <= i < dec_bytes(n).len() ==> 48 <= #[trigger] dec_bytes(n)[i] <= 57);
    }
}

} // verus!
