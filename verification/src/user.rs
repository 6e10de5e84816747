//! Accounts and their permission bits: bit 1 of `permissions` marks a
//! manager, bit 4 a beatmap moderator and bit 8 a restricted account; bit 2
//! of `flags` marks a verified account and bit 32 one pending verification.
//! An account is effectively restricted only while it is not pending
//! verification.

use vstd::prelude::*;
use vstd::utf8::{decode_utf8, encode_utf8, valid_utf8};
use crate::decimal::bytes_to_string;

verus! {

/// An account row. Timestamps are seconds since the Unix epoch.
#[derive(Debug, Clone)]
pub struct User {
    pub id: i32,
    pub username: String,
    pub username_safe: String,
    pub background_url: Option<String>,
    /// The bcrypt hash of the MD5 of the password.
    pub password: String,
    pub country: String,
    pub permissions: i32,
    pub flags: i32,
    pub username_history: Option<Vec<String>>,
    pub last_seen: i64,
    pub created_at: i64,
    pub donor_until: Option<i64>,
    pub userpage_content: String,
    pub coins: i32,
}

/// Restricted: the restriction bit is set and the account is not pending
/// verification.
pub open spec fn spec_is_restricted(permissions: i32, flags: i32) -> bool {
    permissions & 8 > 0 && flags & 32 == 0
}

pub fn is_restricted(user: &User) -> (r: bool)
    ensures
        r == spec_is_restricted(user.permissions, user.flags),
{
    (user.permissions & 8) > 0 && (user.flags & 32) == 0
}

/// Pending verification: restricted bit with the pending flag.
pub fn is_pending_verification(user: &User) -> (r: bool)
    ensures
        r == (user.permissions & 8 > 0 && user.flags & 32 > 0),
{
    user.permissions & 8 > 0 && user.flags & 32 > 0
}

/// Verified accounts bypass the performance caps.
pub fn is_verified(user: &User) -> (r: bool)
    ensures
        r == (user.flags & 2 > 0),
{
    user.flags & 2 > 0
}

pub fn is_user_manager(user: &User) -> (r: bool)
    ensures
        r == (user.permissions & 1 > 0),
{
    user.permissions & 1 > 0
}

/// Beatmap moderators may change map statuses.
pub fn is_beatmap_moderator(user: &User) -> (r: bool)
    ensures
        r == (user.permissions & 4 > 0),
{
    user.permissions & 4 > 0
}

/// A donor while the paid period lasts.
pub fn is_donator(user: &User, now: i64) -> (r: bool)
    ensures
        r == (user.donor_until matches Some(t) && t > now),
{
    match user.donor_until {
        Some(t) => t > now,
        None => false,
    }
}

/// Whether a viewer may see a profile: anyone for unrestricted accounts;
/// a restricted profile only for its owner and for managers.
pub fn can_view_profile(
    target_permissions: i32,
    target_flags: i32,
    target_id: i32,
    viewer: &Option<(i32, i32)>,
) -> (r: bool)
    ensures
        !spec_is_restricted(target_permissions, target_flags) ==> r,
        spec_is_restricted(target_permissions, target_flags) ==> r == (viewer matches Some(
            (vid, vperm),
        ) && (vid == target_id || vperm & 1 > 0)),
{
    if !((target_permissions & 8) > 0 && (target_flags & 32) == 0) {
        return true;
    }
    match viewer {
        Some((vid, vperm)) => *vid == target_id || (*vperm & 1) > 0,
        None => false,
    }
}

/// What str::to_lowercase returns: a function of the characters alone.
pub uninterp spec fn lower_of(s: Seq<char>) -> Seq<char>;

/// How ASCII characters map under lowercasing: the upper-case letters
/// shift by 32, everything else stays.
pub open spec fn ascii_lower_pair(a: char, b: char) -> bool {
    if 65 <= a as u32 <= 90 {
        b as u32 == a as u32 + 32
    } else {
        b == a
    }
}

/// Relies on str::to_lowercase: the result depends on the characters
/// alone, an empty string stays empty, and ASCII text maps letter by
/// letter.
#[verifier::external_body]
fn to_lowercase(s: &str) -> (r: String)
    ensures
        r@ == lower_of(s@),
        s@.len() == 0 ==> r@.len() == 0,
        vstd::utf8::is_ascii_chars(s@) ==> r@.len() == s@.len() && (forall|i: int|
            0 <= i < s@.len() ==> ascii_lower_pair(s@[i], #[trigger] r@[i])),
{
    s.to_lowercase()
}

/// Replace every space byte with an underscore. A space never occurs inside
/// a multi-byte UTF-8 sequence, so this is the byte form of the character
/// replacement.
pub open spec fn spec_underscore_bytes(b: Seq<u8>) -> Seq<u8> {
    Seq::new(b.len(), |i: int| if b[i] == 32 { 95u8 } else { b[i] })
}

/// The normalized form of a username: lowercased, spaces as underscores.
pub open spec fn spec_to_safe(s: Seq<char>) -> Seq<char> {
    let replaced = spec_underscore_bytes(encode_utf8(lower_of(s)));
    if valid_utf8(replaced) {
        decode_utf8(replaced)
    } else {
        lower_of(s)
    }
}

pub fn to_safe(name: &String) -> (r: String)
    ensures
        r@ == spec_to_safe(name@),
{
    let lowered = to_lowercase(name.as_str());
    let lb = lowered.as_str().as_bytes();
    let mut out: Vec<u8> = Vec::new();
    let mut i: usize = 0;
    while i < lb.len()
        invariant
            i <= lb@.len(),
            out@ =~= spec_underscore_bytes(lb@).subrange(0, i as int),
        decreases lb@.len() - i,
    {
        let b = lb[i];
        out.push(if b == 32 {
            95
        } else {
            b
        });
        proof {
            assert(out@ =~= spec_underscore_bytes(lb@).subrange(0, i + 1));
        }
        i = i + 1;
    }
    proof {
        assert(spec_underscore_bytes(lb@).subrange(0, lb@.len() as int) =~= spec_underscore_bytes(
            lb@,
        ));
    }
    match bytes_to_string(&out) {
        Some(s) => s,
        None => lowered,
    }
}

} // verus!
