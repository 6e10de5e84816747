//! The in-band bot: command-line parsing for messages that start with an
//! exclamation mark, the beatmap-id scan behind the now-playing handler,
//! and the beatmap-status command's decision.

use vstd::prelude::*;
use crate::mods::string_chars;

verus! {

/// The space-separated tokens of a text, empty runs skipped.
pub open spec fn spec_tokens(s: Seq<char>) -> Seq<Seq<char>>
    decreases s.len(),
{
    if s.len() == 0 {
        Seq::empty()
    } else if s[0] == ' ' {
        spec_tokens(s.drop_first())
    } else {
        let rest = spec_tokens(s.drop_first());
        if s.len() >= 2 && s[1] != ' ' {
            seq![seq![s[0]] + rest[0]] + rest.drop_first()
        } else {
            seq![seq![s[0]]] + rest
        }
    }
}

/// A text that starts with a non-space has a first token starting with
/// that character.
pub proof fn lemma_tokens_head(s: Seq<char>)
    requires
        s.len() > 0,
        s[0] != ' ',
    ensures
        spec_tokens(s).len() >= 1,
        spec_tokens(s)[0].len() >= 1,
        spec_tokens(s)[0][0] == s[0],
    decreases s.len(),
{
    if s.len() >= 2 && s[1] != ' ' {
        assert(s.drop_first()[0] == s[1]);
        lemma_tokens_head(s.drop_first());
    }
}

/// Relies on collecting an iterator of characters into a String: the
/// characters become the string's view.
#[verifier::external_body]
fn chars_to_string(v: &Vec<char>) -> (r: String)
    ensures
        r@ == v@,
{
    v.iter().collect()
}

/// Split a text into its space-separated tokens.
fn tokenize(chars: &Vec<char>) -> (r: Vec<Vec<char>>)
    ensures
        r.deep_view() == spec_tokens(chars@),
{
    let mut acc: Vec<Vec<char>> = Vec::new();
    proof {
        assert(chars@.skip(chars@.len() as int) =~= Seq::<char>::empty());
        assert(acc.deep_view() =~~= spec_tokens(chars@.skip(chars@.len() as int)));
    }
    let mut i: usize = chars.len();
    while i > 0
        invariant
            i <= chars@.len(),
            acc.deep_view() =~~= spec_tokens(chars@.skip(i as int)),
        decreases i,
    {
        let ghost old_acc = acc.deep_view();
        i = i - 1;
        let c = chars[i];
        proof {
            assert(chars@.skip(i as int).drop_first() =~= chars@.skip(i + 1));
            assert(chars@.skip(i as int)[0] == chars@[i as int]);
        }
        if c == ' ' {
        } else if i + 1 < chars.len() && chars[i + 1] != ' ' {
            proof {
                assert(chars@.skip(i as int)[1] == chars@[i + 1]);
                assert(chars@.skip(i + 1)[0] == chars@[i + 1]);
                lemma_tokens_head(chars@.skip(i + 1));
            }
            let mut first = acc.remove(0);
            first.insert(0, c);
            acc.insert(0, first);
            proof {
                assert(acc.deep_view() =~~= seq![seq![c] + old_acc[0]] + old_acc.drop_first());
            }
        } else {
            let mut t: Vec<char> = Vec::new();
            t.push(c);
            acc.insert(0, t);
            proof {
                assert(t@ =~= seq![c]);
                assert(acc.deep_view() =~~= seq![seq![c]] + old_acc);
            }
        }
        proof {
            assert(acc.deep_view() =~~= spec_tokens(chars@.skip(i as int)));
        }
    }
    proof {
        assert(chars@.skip(0) =~= chars@);
        assert(acc.deep_view() =~~= spec_tokens(chars@));
    }
    acc
}

/// Parse a chat line as a bot command: a leading exclamation mark, then
/// the command name, then its arguments. Lines without the mark are no
/// command.
pub fn parse_command(content: &String) -> (r: Option<(String, Vec<String>)>)
    ensures
        (content@.len() == 0 || content@[0] != '!') <==> r is None,
        r matches Some((name, args)) ==> ({
            let toks = spec_tokens(content@);
            &&& toks.len() >= 1
            &&& toks[0] == seq!['!'] + name@
            &&& args.deep_view() == toks.drop_first()
        }),
{
    let chars = string_chars(content.as_str());
    if chars.len() == 0 {
        return None;
    }
    if chars[0] != '!' {
        return None;
    }
    proof {
        lemma_tokens_head(chars@);
    }
    let mut toks = tokenize(&chars);
    proof {
        assert(toks.deep_view().len() == toks@.len());
        assert(toks.deep_view()[0] == toks@[0]@);
    }
    let mut first = toks.remove(0);
    let ghost full_first = first@;
    first.remove(0);
    proof {
        assert(first@ =~= full_first.drop_first());
        assert(seq!['!'] + first@ =~= full_first);
    }
    let name = chars_to_string(&first);
    let mut args: Vec<String> = Vec::new();
    let ghost rest = toks.deep_view();
    proof {
        assert(rest =~~= spec_tokens(chars@).drop_first());
    }
    let mut k: usize = 0;
    while k < toks.len()
        invariant
            k <= toks@.len(),
            args@.len() == k,
            toks.deep_view() == rest,
            forall|j: int| 0 <= j < k ==> (#[trigger] args@[j])@ == rest[j],
        decreases toks@.len() - k,
    {
        proof {
            assert(toks.deep_view()[k as int] == toks@[k as int]@);
        }
        let a = chars_to_string(&toks[k]);
        args.push(a);
        k = k + 1;
    }
    proof {
        assert(args.deep_view() =~~= rest);
    }
    Some((name, args))
}

/// The numeric value of a digit character.
pub open spec fn char_digit(c: char) -> nat {
    if c == '1' {
        1
    } else if c == '2' {
        2
    } else if c == '3' {
        3
    } else if c == '4' {
        4
    } else if c == '5' {
        5
    } else if c == '6' {
        6
    } else if c == '7' {
        7
    } else if c == '8' {
        8
    } else if c == '9' {
        9
    } else {
        0
    }
}

pub open spec fn is_digit_char(c: char) -> bool {
    c == '0' || c == '1' || c == '2' || c == '3' || c == '4' || c == '5' || c == '6' || c == '7'
        || c == '8' || c == '9'
}

/// The number a run of digit characters denotes.
pub open spec fn digits_val(s: Seq<char>) -> nat
    decreases s.len(),
{
    if s.len() == 0 {
        0
    } else {
        digits_val(s.drop_last()) * 10 + char_digit(s.last())
    }
}

/// A now-playing run in a text: a slash, at least one digit, a closing
/// space, and a value that fits the id type.
pub open spec fn spec_np_run(s: Seq<char>, i: int, j: int) -> bool {
    &&& 0 <= i
    &&& i + 1 < j
    &&& j < s.len()
    &&& s[i] == '/'
    &&& s[j] == ' '
    &&& (forall|k: int| i < k < j ==> is_digit_char(#[trigger] s[k]))
    &&& digits_val(s.subrange(i + 1, j)) <= u64::MAX
}

/// A longer digit text never denotes a smaller value.
proof fn lemma_digits_val_monotonic(s: Seq<char>, m: int)
    requires
        0 <= m <= s.len(),
    ensures
        digits_val(s) >= digits_val(s.subrange(0, m)),
    decreases s.len() - m,
{
    if m == s.len() {
        assert(s.subrange(0, m) =~= s);
    } else {
        lemma_digits_val_monotonic(s, m + 1);
        assert(s.subrange(0, m + 1).drop_last() =~= s.subrange(0, m));
        assert(digits_val(s.subrange(0, m + 1)) >= digits_val(s.subrange(0, m))) by (nonlinear_arith)
            requires
                digits_val(s.subrange(0, m + 1)) == digits_val(s.subrange(0, m)) * 10 + char_digit(
                    s.subrange(0, m + 1).last(),
                ),
        ;
    }
}

/// Scan a now-playing message for the first "/<digits> " run: anything
/// returned is backed by the earliest such run and denotes its id, and
/// nothing is returned only when no run exists.
pub fn extract_beatmap_id(content: &String) -> (r: Option<u64>)
    ensures
        r matches Some(id) ==> exists|i: int, j: int|
            #![trigger content@[i], content@[j]]
            spec_np_run(content@, i, j) && id == digits_val(content@.subrange(i + 1, j)) && (forall|
                i2: int,
                j2: int,
            | i2 < i ==> !spec_np_run(content@, i2, j2)),
        r is None ==> forall|i: int, j: int| !spec_np_run(content@, i, j),
{
    let chars = string_chars(content.as_str());
    let mut i: usize = 0;
    while i < chars.len()
        invariant
            i <= chars@.len(),
            chars@ == content@,
            forall|i2: int, j2: int| i2 < i ==> !spec_np_run(content@, i2, j2),
        decreases chars@.len() - i,
    {
        if chars[i] == '/' {
            let mut j: usize = i + 1;
            let mut v: u64 = 0;
            let mut ok = true;
            let mut done = false;
            while j < chars.len() && ok && !done
                invariant
                    i + 1 <= j <= chars@.len(),
                    i < chars@.len(),
                    chars@ == content@,
                    chars@[i as int] == '/',
                    forall|k: int| i < k < j ==> is_digit_char(#[trigger] chars@[k]),
                    ok ==> v == digits_val(chars@.subrange(i + 1, j as int)),
                    done ==> j < chars@.len() && chars@[j as int] == ' ',
                    !ok ==> j < chars@.len() && ((!is_digit_char(chars@[j as int]) && chars@[
                        j as int
                    ] != ' ') || (is_digit_char(chars@[j as int]) && digits_val(
                        chars@.subrange(i + 1, j + 1),
                    ) > u64::MAX)),
                decreases chars@.len() - j, (if ok && !done {
                    1int
                } else {
                    0int
                }),
            {
                let c = chars[j];
                if c == ' ' {
                    done = true;
                } else {
                    let d = digit_of(c);
                    match d {
                        None => {
                            ok = false;
                        },
                        Some(dv) => {
                            proof {
                                assert(chars@.subrange(i + 1, j + 1).drop_last() =~= chars@.subrange(
                                    i + 1,
                                    j as int,
                                ));
                                assert(chars@.subrange(i + 1, j + 1).last() == chars@[j as int]);
                            }
                            if v > (u64::MAX - dv as u64) / 10 {
                                proof {
                                    assert(digits_val(chars@.subrange(i + 1, j + 1)) == v * 10
                                        + dv);
                                    assert(v * 10 + dv > u64::MAX) by (nonlinear_arith)
                                        requires
                                            v > (u64::MAX - dv as u64) / 10,
                                            dv <= 9,
                                            v >= 0,
                                    ;
                                }
                                ok = false;
                            } else {
                                v = v * 10 + dv as u64;
                                j = j + 1;
                            }
                        },
                    }
                }
            }
            if ok && done && j > i + 1 {
                proof {
                    assert(spec_np_run(content@, i as int, j as int));
                    assert(v == digits_val(content@.subrange(i + 1, j as int)));
                }
                return Some(v);
            }
            proof {
                assert forall|j2: int| !spec_np_run(content@, i as int, j2) by {
                    if spec_np_run(content@, i as int, j2) {
                        if !ok {
                            if is_digit_char(chars@[j as int]) {
                                // The digits already overflow the id type.
                                assert(j2 > j) by {
                                    if j2 <= j {
                                        assert(is_digit_char(content@[j2]));
                                    }
                                }
                                let run = content@.subrange(i + 1, j2);
                                lemma_digits_val_monotonic(run, j + 1 - (i + 1));
                                assert(run.subrange(0, j + 1 - (i + 1)) =~= content@.subrange(
                                    i + 1,
                                    j + 1,
                                ));
                            } else {
                                // A non-digit, non-space character blocks every run.
                                if j2 < j as int {
                                    assert(is_digit_char(content@[j2]));
                                } else if j2 == j as int {
                                } else {
                                    assert(is_digit_char(content@[j as int]));
                                }
                            }
                        } else if done {
                            // The digits were empty: a space right after the slash.
                            assert(j == i + 1);
                            assert(j2 > j as int ==> is_digit_char(content@[j as int]));
                        } else {
                            // The text ended inside the digits.
                            assert(j == chars@.len());
                            assert(j2 < j as int ==> is_digit_char(content@[j2]));
                        }
                    }
                }
            }
            i = i + 1;
        } else {
            proof {
                assert forall|j2: int| !spec_np_run(content@, i as int, j2) by {}
            }
            i = i + 1;
        }
    }
    None
}

fn digit_of(c: char) -> (r: Option<u8>)
    ensures
        r is Some <==> is_digit_char(c),
        r matches Some(d) ==> d == char_digit(c) && d <= 9,
{
    match c {
        '0' => Some(0),
        '1' => Some(1),
        '2' => Some(2),
        '3' => Some(3),
        '4' => Some(4),
        '5' => Some(5),
        '6' => Some(6),
        '7' => Some(7),
        '8' => Some(8),
        '9' => Some(9),
        _ => None,
    }
}

/// Whether the command acts on a whole set or one map.
#[derive(Debug, Clone, Copy, PartialEq, Eq, Structural)]
pub enum MapScope {
    WholeSet,
    SingleMap,
}

/// What the beatmap-status command decided.
#[derive(Debug, Clone, Copy, PartialEq, Eq, Structural)]
pub struct MapDecision {
    /// The status the map or set is moved to: loved 5, ranked 2,
    /// unranked 0.
    pub new_status: i32,
    pub scope: MapScope,
    /// Whether prior Best scores on the affected maps fall back to
    /// Unranked: exactly on a transition out of Ranked.
    pub unrank_bests: bool,
}

/// Decide the beatmap-status command: only beatmap moderators may use it,
/// a beatmap must have been named first, and the two arguments pick the
/// target status and the scope. Leaving the Ranked status unranks the
/// prior Best scores.
pub fn decide_map_command(
    permissions: i32,
    args: &Vec<String>,
    has_np: bool,
    current_status: i32,
) -> (r: Result<MapDecision, &'static str>)
    ensures
        permissions & 4 == 0 ==> r is Err,
        permissions & 4 != 0 && !has_np ==> r is Err,
        (permissions & 4 != 0 && has_np && args@.len() >= 2 && (args@[0]@ == "loved"@ || args@[0]@
            == "ranked"@ || args@[0]@ == "unranked"@) && (args@[1]@ == "set"@ || args@[1]@
            == "map"@)) ==> r is Ok,
        r matches Ok(d) ==> ({
            &&& permissions & 4 != 0
            &&& has_np
            &&& args@.len() >= 2
            &&& (args@[0]@ == "loved"@ ==> d.new_status == 5)
            &&& (args@[0]@ == "ranked"@ ==> d.new_status == 2)
            &&& (args@[0]@ == "unranked"@ ==> d.new_status == 0)
            &&& (args@[0]@ == "loved"@ || args@[0]@ == "ranked"@ || args@[0]@ == "unranked"@)
            &&& (args@[1]@ == "set"@ <==> d.scope is WholeSet)
            &&& (args@[1]@ == "map"@ <==> d.scope is SingleMap)
            &&& (args@[1]@ == "set"@ || args@[1]@ == "map"@)
            &&& d.unrank_bests == (current_status == 2 && d.new_status != 2)
        }),
{
    proof {
        reveal_strlit("loved");
        reveal_strlit("ranked");
        reveal_strlit("unranked");
        reveal_strlit("set");
        reveal_strlit("map");
        assert("loved"@.len() == 5 && "ranked"@.len() == 6 && "unranked"@.len() == 8);
        assert("set"@.len() == 3 && "map"@.len() == 3);
        assert("loved"@ != "ranked"@ && "loved"@ != "unranked"@ && "ranked"@ != "unranked"@);
        assert("set"@[0] == 's' && "map"@[0] == 'm');
        assert("set"@ != "map"@);
    }
    if permissions & 4 == 0 {
        return Err("Not enough permissions");
    }
    if !has_np {
        return Err("Please, np beatmap first");
    }
    if args.len() < 2 {
        return Err("Usage: !map <loved/ranked/unranked> <set/map>");
    }
    let loved = String::from_str("loved");
    let ranked = String::from_str("ranked");
    let unranked = String::from_str("unranked");
    let new_status: i32 = if args[0].eq(&loved) {
        5
    } else if args[0].eq(&ranked) {
        2
    } else if args[0].eq(&unranked) {
        0
    } else {
        return Err("Usage: !map <loved/ranked/unranked> <set/map>");
    };
    let set_word = String::from_str("set");
    let map_word = String::from_str("map");
    let scope = if args[1].eq(&set_word) {
        MapScope::WholeSet
    } else if args[1].eq(&map_word) {
        MapScope::SingleMap
    } else {
        return Err("Usage: !map <loved/ranked/unranked> <set/map>");
    };
    Ok(
        MapDecision {
            new_status,
            scope,
            unrank_bests: current_status == 2 && new_status != 2,
        },
    )
}

} // verus!
