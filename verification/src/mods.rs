//! The mods bitfield and its short names: parsing "HDHR" styles into bits
//! and printing bits back. Nightcore always brings Doubletime's bit along.

use vstd::prelude::*;

verus! {

/// The mod short-name table, keyed by bit value.
#[verifier::rlimit(50)]
pub fn get_mods_hashmap() -> (r: std::collections::HashMap<u32, String>)
    ensures
        r@.contains_key(1) && r@[1]@ == "NF"@,
        r@.contains_key(2) && r@[2]@ == "EZ"@,
        r@.contains_key(4) && r@[4]@ == "TD"@,
        r@.contains_key(8) && r@[8]@ == "HD"@,
        r@.contains_key(16) && r@[16]@ == "HR"@,
        r@.contains_key(32) && r@[32]@ == "SD"@,
        r@.contains_key(64) && r@[64]@ == "DT"@,
        r@.contains_key(128) && r@[128]@ == "RX"@,
        r@.contains_key(256) && r@[256]@ == "HT"@,
        r@.contains_key(512) && r@[512]@ == "NC"@,
        r@.contains_key(1024) && r@[1024]@ == "FL"@,
        r@.contains_key(4096) && r@[4096]@ == "SO"@,
        r@.contains_key(8192) && r@[8192]@ == "AP"@,
        r@.dom() =~= set![
            1u32,
            2u32,
            4u32,
            8u32,
            16u32,
            32u32,
            64u32,
            128u32,
            256u32,
            512u32,
            1024u32,
            4096u32,
            8192u32,
        ],
{
    let mut m: std::collections::HashMap<u32, String> = std::collections::HashMap::new();
    m.insert(1, String::from_str("NF"));
    m.insert(2, String::from_str("EZ"));
    m.insert(4, String::from_str("TD"));
    m.insert(8, String::from_str("HD"));
    m.insert(16, String::from_str("HR"));
    m.insert(32, String::from_str("SD"));
    m.insert(64, String::from_str("DT"));
    m.insert(128, String::from_str("RX"));
    m.insert(256, String::from_str("HT"));
    m.insert(512, String::from_str("NC"));
    m.insert(1024, String::from_str("FL"));
    m.insert(4096, String::from_str("SO"));
    m.insert(8192, String::from_str("AP"));
    proof {
        assert(m@.dom() =~= set![
            1u32,
            2u32,
            4u32,
            8u32,
            16u32,
            32u32,
            64u32,
            128u32,
            256u32,
            512u32,
            1024u32,
            4096u32,
            8192u32,
        ]);
    }
    m
}

/// The short name of the mod on bit `k`; bit 11 carries no mod.
pub open spec fn mod_name(k: nat) -> Seq<char> {
    if k == 0 {
        "NF"@
    } else if k == 1 {
        "EZ"@
    } else if k == 2 {
        "TD"@
    } else if k == 3 {
        "HD"@
    } else if k == 4 {
        "HR"@
    } else if k == 5 {
        "SD"@
    } else if k == 6 {
        "DT"@
    } else if k == 7 {
        "RX"@
    } else if k == 8 {
        "HT"@
    } else if k == 9 {
        "NC"@
    } else if k == 10 {
        "FL"@
    } else if k == 12 {
        "SO"@
    } else if k == 13 {
        "AP"@
    } else {
        Seq::empty()
    }
}

/// The names of the mods set in `mods`, from bit `k` up, in bit order.
pub open spec fn spec_mods_names(mods: u32, k: nat) -> Seq<char>
    decreases 14 - k,
{
    if k >= 14 {
        Seq::empty()
    } else {
        (if mods & (1u32 << k) != 0 {
            mod_name(k)
        } else {
            Seq::empty()
        }) + spec_mods_names(mods, k + 1)
    }
}

/// The printed form of a mods bitfield: the known mods' names in bit order,
/// or "NM" when none is set.
pub open spec fn spec_format_mods(mods: u32) -> Seq<char> {
    if spec_mods_names(mods, 0).len() == 0 {
        "NM"@
    } else {
        spec_mods_names(mods, 0)
    }
}

fn mod_name_str(k: u32) -> (r: &'static str)
    requires
        k < 14,
    ensures
        r@ == mod_name(k as nat),
{
    proof {
        reveal_strlit("");
        assert(""@ =~= Seq::<char>::empty());
    }
    match k {
        0 => "NF",
        1 => "EZ",
        2 => "TD",
        3 => "HD",
        4 => "HR",
        5 => "SD",
        6 => "DT",
        7 => "RX",
        8 => "HT",
        9 => "NC",
        10 => "FL",
        12 => "SO",
        13 => "AP",
        _ => "",
    }
}

#[verifier::rlimit(50)]
pub fn format_mods(mods: u32) -> (r: String)
    ensures
        r@ == spec_format_mods(mods),
{
    let mut s = String::new();
    let mut k: u32 = 0;
    while k < 14
        invariant
            k <= 14,
            s@ + spec_mods_names(mods, k as nat) =~= spec_mods_names(mods, 0),
        decreases 14 - k,
    {
        if mods & (1u32 << k) != 0 {
            s.append(mod_name_str(k));
        }
        proof {
            assert(s@ + spec_mods_names(mods, (k + 1) as nat) =~= spec_mods_names(mods, 0));
        }
        k = k + 1;
    }
    proof {
        assert(s@ =~= spec_mods_names(mods, 0));
    }
    if s.as_str().is_empty() {
        String::from_str("NM")
    } else {
        s
    }
}

/// The bit a two-letter mod name stands for; Nightcore carries Doubletime.
pub open spec fn spec_mod_bits(a: char, b: char) -> u32 {
    if a == 'N' && b == 'F' {
        1
    } else if a == 'E' && b == 'Z' {
        2
    } else if a == 'T' && b == 'D' {
        4
    } else if a == 'H' && b == 'D' {
        8
    } else if a == 'H' && b == 'R' {
        16
    } else if a == 'S' && b == 'D' {
        32
    } else if a == 'D' && b == 'T' {
        64
    } else if a == 'R' && b == 'X' {
        128
    } else if a == 'H' && b == 'T' {
        256
    } else if a == 'N' && b == 'C' {
        512u32 | 64
    } else if a == 'F' && b == 'L' {
        1024
    } else if a == 'S' && b == 'O' {
        4096
    } else if a == 'A' && b == 'P' {
        8192
    } else {
        0
    }
}

/// Bits of an uppercase mods text, read two letters at a time; a trailing
/// odd letter is ignored.
pub open spec fn spec_parse_mod_chars(s: Seq<char>) -> u32
    decreases s.len(),
{
    if s.len() < 2 {
        0
    } else {
        spec_mod_bits(s[0], s[1]) | spec_parse_mod_chars(s.skip(2))
    }
}

/// What str::to_uppercase returns: a function of the characters alone.
pub uninterp spec fn upper_of(s: Seq<char>) -> Seq<char>;

/// How ASCII characters map under uppercasing: the lower-case letters
/// shift by 32, everything else stays.
pub open spec fn ascii_upper_pair(a: char, b: char) -> bool {
    if 97 <= a as u32 <= 122 {
        b as u32 == a as u32 - 32
    } else {
        b == a
    }
}

/// Relies on str::to_uppercase: the result depends on the characters
/// alone, and ASCII text maps letter by letter.
#[verifier::external_body]
fn to_uppercase(s: &str) -> (r: String)
    ensures
        r@ == upper_of(s@),
        vstd::utf8::is_ascii_chars(s@) ==> r@.len() == s@.len() && (forall|i: int|
            0 <= i < s@.len() ==> ascii_upper_pair(s@[i], #[trigger] r@[i])),
{
    s.to_uppercase()
}

/// Relies on str::chars: the characters of a string, in order.
#[verifier::external_body]
pub(crate) fn string_chars(s: &str) -> (r: Vec<char>)
    ensures
        r@ == s@,
{
    s.chars().collect()
}

/// Parse a mods text such as "HDHR" into its bitfield. Case-insensitive;
/// unknown pairs contribute nothing.
pub fn parse_mods(mods: &String) -> (r: u32)
    ensures
        r == spec_parse_mod_chars(upper_of(mods@)),
{
    let upper = to_uppercase(mods.as_str());
    let chars = string_chars(upper.as_str());
    proof {
        assert(chars@.skip(0) =~= chars@);
    }
    parse_mod_chars(&chars, 0)
}

fn parse_mod_chars(chars: &Vec<char>, pos: usize) -> (r: u32)
    requires
        pos <= chars@.len(),
    ensures
        r == spec_parse_mod_chars(chars@.skip(pos as int)),
    decreases chars@.len() - pos,
{
    if chars.len() - pos < 2 {
        return 0;
    }
    let bits = mod_bits(chars[pos], chars[pos + 1]);
    let rest = parse_mod_chars(chars, pos + 2);
    proof {
        assert(chars@.skip(pos as int).skip(2) =~= chars@.skip(pos + 2));
        assert(chars@.skip(pos as int)[0] == chars@[pos as int]);
        assert(chars@.skip(pos as int)[1] == chars@[pos + 1]);
    }
    bits | rest
}

fn mod_bits(a: char, b: char) -> (r: u32)
    ensures
        r == spec_mod_bits(a, b),
{
    if a == 'N' && b == 'F' {
        1
    } else if a == 'E' && b == 'Z' {
        2
    } else if a == 'T' && b == 'D' {
        4
    } else if a == 'H' && b == 'D' {
        8
    } else if a == 'H' && b == 'R' {
        16
    } else if a == 'S' && b == 'D' {
        32
    } else if a == 'D' && b == 'T' {
        64
    } else if a == 'R' && b == 'X' {
        128
    } else if a == 'H' && b == 'T' {
        256
    } else if a == 'N' && b == 'C' {
        512 | 64
    } else if a == 'F' && b == 'L' {
        1024
    } else if a == 'S' && b == 'O' {
        4096
    } else if a == 'A' && b == 'P' {
        8192
    } else {
        0
    }
}

} // verus!
