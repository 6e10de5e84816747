//! The login handshake's client data: the descriptor line the client sends
//! — version, UTC offset, and the four hardware identifiers — and the
//! geography decision for the connecting address.

use vstd::prelude::*;
use vstd::utf8::{decode_utf8, encode_utf8, valid_utf8};
use crate::decimal::{bytes_to_string, dec_val, is_digits, parse_u64};

verus! {

/// Split a byte string at every occurrence of a separator.
pub open spec fn split_sep(b: Seq<u8>, sep: u8) -> Seq<Seq<u8>>
    decreases b.len(),
{
    if b.len() == 0 {
        seq![Seq::<u8>::empty()]
    } else if b[0] == sep {
        seq![Seq::<u8>::empty()] + split_sep(b.drop_first(), sep)
    } else {
        let rest = split_sep(b.drop_first(), sep);
        seq![seq![b[0]] + rest[0]] + rest.drop_first()
    }
}

pub proof fn lemma_split_sep_len(b: Seq<u8>, sep: u8)
    ensures
        split_sep(b, sep).len() >= 1,
    decreases b.len(),
{
    if b.len() > 0 {
        lemma_split_sep_len(b.drop_first(), sep);
    }
}

/// Split a byte string into its separator-delimited fields.
pub fn split_fields_sep(data: &Vec<u8>, sep: u8) -> (r: Vec<Vec<u8>>)
    ensures
        r.deep_view() == split_sep(data@, sep),
        r@.len() >= 1,
{
    let mut acc: Vec<Vec<u8>> = Vec::new();
    acc.push(Vec::new());
    proof {
        assert(data@.skip(data@.len() as int) =~= Seq::<u8>::empty());
        assert(acc.deep_view() =~~= split_sep(data@.skip(data@.len() as int), sep));
    }
    let mut i: usize = data.len();
    while i > 0
        invariant
            i <= data@.len(),
            acc.deep_view() =~~= split_sep(data@.skip(i as int), sep),
            acc@.len() >= 1,
        decreases i,
    {
        let ghost old_acc = acc.deep_view();
        i = i - 1;
        let c = data[i];
        proof {
            assert(data@.skip(i as int).drop_first() =~= data@.skip(i + 1));
            lemma_split_sep_len(data@.skip(i + 1), sep);
        }
        if c == sep {
            acc.insert(0, Vec::new());
            proof {
                assert(acc.deep_view() =~~= seq![Seq::<u8>::empty()] + old_acc);
            }
        } else {
            let mut first = acc.remove(0);
            first.insert(0, c);
            acc.insert(0, first);
            proof {
                assert(acc.deep_view() =~~= seq![seq![c] + old_acc[0]] + old_acc.drop_first());
            }
        }
        proof {
            assert(acc.deep_view() =~~= split_sep(data@.skip(i as int), sep));
        }
    }
    proof {
        assert(data@.skip(0) =~= data@);
        assert(acc.deep_view() =~~= split_sep(data@, sep));
    }
    acc
}

/// The field at an index of a split, or the empty field past the end.
pub open spec fn field_or_empty(f: Seq<Seq<u8>>, i: int) -> Seq<u8> {
    if 0 <= i < f.len() {
        f[i]
    } else {
        Seq::empty()
    }
}

/// The string a field decodes to, or the empty string when it is not UTF-8.
pub open spec fn field_string(f: Seq<Seq<u8>>, i: int) -> Seq<char> {
    if valid_utf8(field_or_empty(f, i)) {
        decode_utf8(field_or_empty(f, i))
    } else {
        Seq::empty()
    }
}

/// The four hardware identifiers of a client.
#[derive(Debug, Clone)]
pub struct HWID {
    pub plain: String,
    pub mac: String,
    pub uid: String,
    pub disk: String,
}

impl HWID {
    /// Parse "plain:mac:uid:disk". Missing or non-UTF-8 fields read as
    /// empty.
    pub fn from(data: &String) -> (r: HWID)
        ensures
            ({
                let f = split_sep(encode_utf8(data@), 58);
                &&& r.plain@ == field_string(f, 0)
                &&& r.mac@ == field_string(f, 1)
                &&& r.uid@ == field_string(f, 2)
                &&& r.disk@ == field_string(f, 3)
            }),
    {
        let bytes = str_bytes(data.as_str());
        let fields = split_fields_sep(&bytes, 58);
        HWID {
            plain: field_to_string(&fields, 0),
            mac: field_to_string(&fields, 1),
            uid: field_to_string(&fields, 2),
            disk: field_to_string(&fields, 3),
        }
    }
}

fn str_bytes(s: &str) -> (r: Vec<u8>)
    ensures
        r@ == encode_utf8(s@),
{
    let b = s.as_bytes();
    let mut out: Vec<u8> = Vec::new();
    let mut i: usize = 0;
    while i < b.len()
        invariant
            i <= b@.len(),
            out@ =~= b@.subrange(0, i as int),
        decreases b@.len() - i,
    {
        out.push(b[i]);
        proof {
            assert(out@ =~= b@.subrange(0, i + 1));
        }
        i = i + 1;
    }
    proof {
        assert(b@.subrange(0, b@.len() as int) =~= b@);
    }
    out
}

fn field_to_string(fields: &Vec<Vec<u8>>, i: usize) -> (r: String)
    ensures
        r@ == field_string(fields.deep_view(), i as int),
{
    proof {
        if (i as int) < fields@.len() {
            assert(fields.deep_view()[i as int] == fields@[i as int].deep_view());
            assert(fields@[i as int].deep_view() =~= fields@[i as int]@);
        }
    }
    if i >= fields.len() {
        proof {
            assert(valid_utf8(Seq::<u8>::empty()));
            assert(decode_utf8(Seq::<u8>::empty()) =~= Seq::<char>::empty());
        }
        return String::new();
    }
    match bytes_to_string(&fields[i]) {
        Some(s) => s,
        None => String::new(),
    }
}

/// What a client sends about itself at login.
#[derive(Debug, Clone)]
pub struct ClientData {
    pub client_version: String,
    pub time_offset: i8,
    pub hwid: HWID,
}

impl ClientData {
    /// Parse "version|offset|_|hwids". A malformed offset reads as zero;
    /// missing fields read as empty.
    pub fn from(data: &String) -> (r: ClientData)
        ensures
            ({
                let f = split_sep(encode_utf8(data@), 124);
                &&& r.client_version@ == field_string(f, 0)
                &&& r.time_offset == spec_offset_val(field_or_empty(f, 1))
                &&& ({
                    let h = split_sep(field_or_empty(f, 3), 58);
                    &&& r.hwid.plain@ == field_string(h, 0)
                    &&& r.hwid.mac@ == field_string(h, 1)
                    &&& r.hwid.uid@ == field_string(h, 2)
                    &&& r.hwid.disk@ == field_string(h, 3)
                })
            }),
    {
        let bytes = str_bytes(data.as_str());
        let fields = split_fields_sep(&bytes, 124);
        let client_version = field_to_string(&fields, 0);
        let time_offset = parse_offset(&fields, 1);
        let hwid_field: Vec<u8> = if fields.len() > 3 {
            proof {
                assert(fields.deep_view()[3] == fields@[3].deep_view());
                assert(fields@[3].deep_view() =~= fields@[3]@);
            }
            copy_bytes(&fields[3])
        } else {
            Vec::new()
        };
        proof {
            assert(hwid_field@ =~= field_or_empty(fields.deep_view(), 3));
        }
        let hfields = split_fields_sep(&hwid_field, 58);
        ClientData {
            client_version,
            time_offset,
            hwid: HWID {
                plain: field_to_string(&hfields, 0),
                mac: field_to_string(&hfields, 1),
                uid: field_to_string(&hfields, 2),
                disk: field_to_string(&hfields, 3),
            },
        }
    }
}

fn copy_bytes(b: &Vec<u8>) -> (r: Vec<u8>)
    ensures
        r@ == b@,
{
    let mut out: Vec<u8> = Vec::new();
    let mut i: usize = 0;
    while i < b.len()
        invariant
            i <= b@.len(),
            out@ =~= b@.subrange(0, i as int),
        decreases b@.len() - i,
    {
        out.push(b[i]);
        proof {
            assert(out@ =~= b@.subrange(0, i + 1));
        }
        i = i + 1;
    }
    proof {
        assert(b@.subrange(0, b@.len() as int) =~= b@);
    }
    out
}

/// The signed number a UTC offset field denotes: plain digits within the
/// positive range, a leading minus within the negative range, anything
/// else zero.
pub open spec fn spec_offset_val(b: Seq<u8>) -> i8 {
    if is_digits(b) && dec_val(b) <= 127 {
        dec_val(b) as i8
    } else if b.len() >= 2 && b[0] == 45 && is_digits(b.skip(1)) && dec_val(b.skip(1)) <= 128 {
        (-(dec_val(b.skip(1)) as int)) as i8
    } else {
        0
    }
}

/// The client's UTC offset field; anything that is not a small signed
/// number reads as zero.
fn parse_offset(fields: &Vec<Vec<u8>>, i: usize) -> (r: i8)
    ensures
        r == spec_offset_val(field_or_empty(fields.deep_view(), i as int)),
{
    if i >= fields.len() {
        return 0;
    }
    proof {
        assert(fields.deep_view()[i as int] == fields@[i as int].deep_view());
        assert(fields@[i as int].deep_view() =~= fields@[i as int]@);
    }
    match parse_u64(&fields[i]) {
        Some(v) => {
            if v <= 127 {
                v as i8
            } else {
                0
            }
        },
        None => {
            let field = &fields[i];
            if field.len() >= 2 && field[0] == 45 {
                let mut tail: Vec<u8> = Vec::new();
                let mut k: usize = 1;
                while k < field.len()
                    invariant
                        1 <= k <= field@.len(),
                        tail@ =~= field@.subrange(1, k as int),
                    decreases field@.len() - k,
                {
                    tail.push(field[k]);
                    proof {
                        assert(tail@ =~= field@.subrange(1, k + 1));
                    }
                    k = k + 1;
                }
                proof {
                    assert(tail@ =~= field@.skip(1));
                }
                match parse_u64(&tail) {
                    Some(v) => {
                        if v <= 128 {
                            (-(v as i64)) as i8
                        } else {
                            0
                        }
                    },
                    None => 0,
                }
            } else {
                0
            }
        },
    }
}

/// The address the geography lookup should use: none at all for a missing
/// or loopback address, so that a local login carries no location.
pub fn effective_ip(ip: &Option<String>) -> (r: Option<String>)
    ensures
        r is None <==> (ip is None || ip->Some_0@ == "127.0.0.1"@),
        r matches Some(t) ==> ip matches Some(s) && t@ == s@,
{
    match ip {
        None => None,
        Some(s) => {
            let loopback = String::from_str("127.0.0.1");
            if s.eq(&loopback) {
                None
            } else {
                Some(s.clone())
            }
        },
    }
}

/// The geography attached to a session: a country byte and latitude and
/// longitude as raw IEEE single bits. With no lookup result everything is
/// zero — a login from the loopback address carries no location.
pub fn geo_from_lookup(lookup: &Option<(u8, u32, u32)>) -> (r: (u8, u32, u32))
    ensures
        lookup is None ==> r == (0u8, 0u32, 0u32),
        lookup matches Some(g) ==> r == g,
{
    match lookup {
        None => (0, 0, 0),
        Some((c, lat, lon)) => (*c, *lat, *lon),
    }
}

} // verus!
