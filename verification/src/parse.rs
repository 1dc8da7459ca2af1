//! The JSON grammar and the record parser.
//!
//! The grammar is given as total specification functions over byte
//! sequences; the executable parser is proved to return exactly what the
//! grammar says, both on success and on failure.  Number and string
//! literals are captured verbatim (see [`crate::value`]), so a parsed
//! document can be re-serialized losslessly.
//!
//! Byte values are written numerically; the ones that matter here:
//! space 32, tab 9, LF 10, CR 13, `"` 34, `\` 92, `,` 44, `:` 58,
//! `[` 91, `]` 93, `{` 123, `}` 125, `-` 45, `+` 43, `.` 46, `0`-`9`
//! 48..=57, `e` 101, `E` 69, `u` 117.

use vstd::prelude::*;
use crate::value::JsonVal;

verus! {

/// JSON insignificant whitespace.
pub open spec fn is_ws(b: u8) -> bool {
    b == 32 || b == 9 || b == 10 || b == 13
}

/// ASCII decimal digit.
pub open spec fn is_digit(b: u8) -> bool {
    48 <= b <= 57
}

/// ASCII hexadecimal digit.
pub open spec fn is_hex_digit(b: u8) -> bool {
    is_digit(b) || (65 <= b <= 70) || (97 <= b <= 102)
}

/// The character of a one-byte escape: `\"` `\\` `\/` `\b` `\f` `\n` `\r` `\t`.
pub open spec fn is_simple_escape(b: u8) -> bool {
    b == 34 || b == 92 || b == 47 || b == 98 || b == 102 || b == 110 || b == 114 || b == 116
}

/// A byte that may stand unescaped inside a string literal: anything from
/// space upward except the quote and the backslash.  Bytes above 127 are the
/// continuation of multi-byte characters; the engine only parses text that
/// was decoded as UTF-8, so they pass through unexamined.
pub open spec fn is_unescaped(b: u8) -> bool {
    b >= 32 && b != 34 && b != 92
}

/// The first index at or after `i` that does not hold whitespace.
pub open spec fn skip_ws(s: Seq<u8>, i: int) -> int
    decreases s.len() - i,
{
    if 0 <= i < s.len() && is_ws(s[i]) {
        skip_ws(s, i + 1)
    } else {
        i
    }
}

/// `skip_ws` stays within the input.
pub proof fn lemma_skip_ws(s: Seq<u8>, i: int)
    requires
        0 <= i <= s.len(),
    ensures
        i <= skip_ws(s, i) <= s.len(),
    decreases s.len() - i,
{
    if i < s.len() && is_ws(s[i]) {
        lemma_skip_ws(s, i + 1);
    }
}

/// Clamp `j` into the range `lo ..= hi`.  The parse functions clamp every
/// index obtained from a nested parse so that termination is evident; the
/// progress lemmas below show that on every reachable value the clamp is the
/// identity.
pub open spec fn within(lo: int, j: int, hi: int) -> int {
    if j > hi {
        hi
    } else if j < lo {
        lo
    } else {
        j
    }
}

/// The body of a string literal, entered just past the opening quote.
/// Yields the raw bytes up to the matching quote (escape sequences kept
/// verbatim) and the index just past the closing quote.
pub open spec fn parse_string_body(s: Seq<u8>, i: int) -> Option<(Seq<u8>, int)>
    decreases s.len() - i,
{
    if i < 0 || i >= s.len() {
        None
    } else if s[i] == 34 {
        Some((Seq::empty(), i + 1))
    } else if s[i] == 92 {
        if i + 1 < s.len() && is_simple_escape(s[i + 1]) {
            match parse_string_body(s, i + 2) {
                Some((c, j)) => Some((seq![s[i], s[i + 1]] + c, j)),
                None => None,
            }
        } else if i + 5 < s.len() && s[i + 1] == 117 && is_hex_digit(s[i + 2]) && is_hex_digit(
            s[i + 3],
        ) && is_hex_digit(s[i + 4]) && is_hex_digit(s[i + 5]) {
            match parse_string_body(s, i + 6) {
                Some((c, j)) => Some((s.subrange(i, i + 6) + c, j)),
                None => None,
            }
        } else {
            None
        }
    } else if is_unescaped(s[i]) {
        match parse_string_body(s, i + 1) {
            Some((c, j)) => Some((seq![s[i]] + c, j)),
            None => None,
        }
    } else {
        None
    }
}

/// A successful string body ends past its opening position and within the
/// input.
pub proof fn lemma_string_body_progress(s: Seq<u8>, i: int)
    ensures
        parse_string_body(s, i) matches Some(p) ==> i + 1 <= p.1 <= s.len(),
    decreases s.len() - i,
{
    if 0 <= i < s.len() {
        if s[i] == 92 {
            if i + 1 < s.len() && is_simple_escape(s[i + 1]) {
                lemma_string_body_progress(s, i + 2);
            } else if i + 5 < s.len() {
                lemma_string_body_progress(s, i + 6);
            }
        } else {
            lemma_string_body_progress(s, i + 1);
        }
    }
}

/// The first index at or after `i` that does not hold a digit.
pub open spec fn digits_end(s: Seq<u8>, i: int) -> int
    decreases s.len() - i,
{
    if 0 <= i < s.len() && is_digit(s[i]) {
        digits_end(s, i + 1)
    } else {
        i
    }
}

/// `digits_end` stays within the input.
pub proof fn lemma_digits_end(s: Seq<u8>, i: int)
    requires
        0 <= i <= s.len(),
    ensures
        i <= digits_end(s, i) <= s.len(),
    decreases s.len() - i,
{
    if i < s.len() && is_digit(s[i]) {
        lemma_digits_end(s, i + 1);
    }
}

/// The optional exponent part of a number whose literal started at `start`
/// and whose digits so far end at `i`.  Yields the whole literal verbatim.
pub open spec fn parse_exponent(s: Seq<u8>, start: int, i: int) -> Option<(Seq<u8>, int)> {
    if i < s.len() && (s[i] == 101 || s[i] == 69) {
        let d = if i + 1 < s.len() && (s[i + 1] == 43 || s[i + 1] == 45) {
            i + 2
        } else {
            i + 1
        };
        if d < s.len() && is_digit(s[d]) {
            Some((s.subrange(start, digits_end(s, d)), digits_end(s, d)))
        } else {
            None
        }
    } else {
        Some((s.subrange(start, i), i))
    }
}

/// A number literal: `-? int frac? exp?`, captured verbatim.
pub open spec fn parse_number(s: Seq<u8>, i: int) -> Option<(Seq<u8>, int)> {
    if i < 0 || i >= s.len() {
        None
    } else {
        let d = if s[i] == 45 {
            i + 1
        } else {
            i
        };
        if d < s.len() && is_digit(s[d]) {
            let e = if s[d] == 48 {
                d + 1
            } else {
                digits_end(s, d)
            };
            if e < s.len() && s[e] == 46 {
                if e + 1 < s.len() && is_digit(s[e + 1]) {
                    parse_exponent(s, i, digits_end(s, e + 1))
                } else {
                    None
                }
            } else {
                parse_exponent(s, i, e)
            }
        } else {
            None
        }
    }
}

/// A successful number literal is the verbatim text it covered.
pub proof fn lemma_number_progress(s: Seq<u8>, i: int)
    ensures
        parse_number(s, i) matches Some(p) ==> {
            &&& i < p.1 <= s.len()
            &&& p.0 == s.subrange(i, p.1)
        },
{
    if 0 <= i < s.len() {
        let d = if s[i] == 45 {
            i + 1
        } else {
            i
        };
        if d < s.len() && is_digit(s[d]) {
            lemma_digits_end(s, d);
            lemma_digits_end(s, d + 1);
            let e = if s[d] == 48 {
                d + 1
            } else {
                digits_end(s, d)
            };
            if e < s.len() && s[e] == 46 {
                if e + 1 < s.len() && is_digit(s[e + 1]) {
                    lemma_digits_end(s, e + 1);
                    lemma_exponent_progress(s, i, digits_end(s, e + 1));
                }
            } else {
                lemma_exponent_progress(s, i, e);
            }
        }
    }
}

proof fn lemma_exponent_progress(s: Seq<u8>, start: int, i: int)
    requires
        0 <= start < i <= s.len(),
    ensures
        parse_exponent(s, start, i) matches Some(p) ==> {
            &&& start < p.1 <= s.len()
            &&& i <= p.1
            &&& p.0 == s.subrange(start, p.1)
        },
{
    if i < s.len() && (s[i] == 101 || s[i] == 69) {
        let d = if i + 1 < s.len() && (s[i + 1] == 43 || s[i + 1] == 45) {
            i + 2
        } else {
            i + 1
        };
        if d < s.len() && is_digit(s[d]) {
            lemma_digits_end(s, d);
        }
    }
}

/// A JSON value starting exactly at `i` (no leading whitespace).
/// Yields its model and the index just past it.
pub open spec fn parse_value(s: Seq<u8>, i: int) -> Option<(JsonVal, int)>
    decreases s.len() - i, 0int,
{
    if i < 0 || i >= s.len() {
        None
    } else if s[i] == 110 {  // n
        if i + 4 <= s.len() && s[i + 1] == 117 && s[i + 2] == 108 && s[i + 3] == 108 {
            Some((JsonVal::Null, i + 4))
        } else {
            None
        }
    } else if s[i] == 116 {  // t
        if i + 4 <= s.len() && s[i + 1] == 114 && s[i + 2] == 117 && s[i + 3] == 101 {
            Some((JsonVal::Bool(true), i + 4))
        } else {
            None
        }
    } else if s[i] == 102 {  // f
        if i + 5 <= s.len() && s[i + 1] == 97 && s[i + 2] == 108 && s[i + 3] == 115 && s[i + 4]
            == 101 {
            Some((JsonVal::Bool(false), i + 5))
        } else {
            None
        }
    } else if s[i] == 34 {  // "
        match parse_string_body(s, i + 1) {
            Some((c, j)) => Some((JsonVal::Str(c), j)),
            None => None,
        }
    } else if s[i] == 45 || is_digit(s[i]) {
        match parse_number(s, i) {
            Some((lit, j)) => Some((JsonVal::Num(lit), j)),
            None => None,
        }
    } else if s[i] == 91 {  // [
        let j = skip_ws(s, i + 1);
        if j < s.len() && s[j] == 93 {  // ]
            Some((JsonVal::Arr(Seq::empty()), j + 1))
        } else {
            match parse_items(s, i + 1) {
                Some((items, e)) => Some((JsonVal::Arr(items), e)),
                None => None,
            }
        }
    } else if s[i] == 123 {  // {
        let j = skip_ws(s, i + 1);
        if j < s.len() && s[j] == 125 {  // }
            Some((JsonVal::Obj(Seq::empty()), j + 1))
        } else {
            match parse_members(s, i + 1) {
                Some((members, e)) => Some((JsonVal::Obj(members), e)),
                None => None,
            }
        }
    } else {
        None
    }
}

/// One or more comma-separated array items starting at `i` (whitespace
/// allowed), up to and including the closing `]`.
pub open spec fn parse_items(s: Seq<u8>, i: int) -> Option<(Seq<JsonVal>, int)>
    decreases s.len() - i, 1int,
{
    if i < 0 || i > s.len() {
        None
    } else {
        let j = within(i, skip_ws(s, i), s.len() as int);
        match parse_value(s, j) {
            Some((v, k0)) => {
                let k = within(j + 1, k0, s.len() as int);
                let m = within(k, skip_ws(s, k), s.len() as int);
                if m < s.len() && s[m] == 44 {  // ,
                    match parse_items(s, m + 1) {
                        Some((rest, e)) => Some((seq![v] + rest, e)),
                        None => None,
                    }
                } else if m < s.len() && s[m] == 93 {  // ]
                    Some((seq![v], m + 1))
                } else {
                    None
                }
            },
            None => None,
        }
    }
}

/// One or more comma-separated object members starting at `i` (whitespace
/// allowed), up to and including the closing `}`.
pub open spec fn parse_members(s: Seq<u8>, i: int) -> Option<(Seq<(Seq<u8>, JsonVal)>, int)>
    decreases s.len() - i, 1int,
{
    if i < 0 || i > s.len() {
        None
    } else {
        let j = within(i, skip_ws(s, i), s.len() as int);
        if j < s.len() && s[j] == 34 {  // " opening the key
            match parse_string_body(s, j + 1) {
                Some((key, k0)) => {
                    let k = within(j + 1, k0, s.len() as int);
                    let m = within(k, skip_ws(s, k), s.len() as int);
                    if m < s.len() && s[m] == 58 {  // :
                        let n = within(m + 1, skip_ws(s, m + 1), s.len() as int);
                        match parse_value(s, n) {
                            Some((v, p0)) => {
                                let p = within(n + 1, p0, s.len() as int);
                                let q = within(p, skip_ws(s, p), s.len() as int);
                                if q < s.len() && s[q] == 44 {  // ,
                                    match parse_members(s, q + 1) {
                                        Some((rest, e)) => Some((seq![(key, v)] + rest, e)),
                                        None => None,
                                    }
                                } else if q < s.len() && s[q] == 125 {  // }
                                    Some((seq![(key, v)], q + 1))
                                } else {
                                    None
                                }
                            },
                            None => None,
                        }
                    } else {
                        None
                    }
                },
                None => None,
            }
        } else {
            None
        }
    }
}

/// A successful parse always consumes at least one byte and stays within
/// the input.
pub proof fn lemma_value_progress(s: Seq<u8>, i: int)
    ensures
        parse_value(s, i) matches Some(p) ==> i < p.1 <= s.len(),
        parse_items(s, i) matches Some(p) ==> i < p.1 <= s.len(),
        parse_members(s, i) matches Some(p) ==> i < p.1 <= s.len(),
    decreases s.len() - i, 2int,
{
    lemma_value_progress_value(s, i);
    lemma_value_progress_items(s, i);
    lemma_value_progress_members(s, i);
}

proof fn lemma_value_progress_value(s: Seq<u8>, i: int)
    ensures
        parse_value(s, i) matches Some(p) ==> i < p.1 <= s.len(),
    decreases s.len() - i, 0int,
{
    if 0 <= i < s.len() {
        if s[i] == 34 {
            lemma_string_body_progress(s, i + 1);
        } else if s[i] == 45 || is_digit(s[i]) {
            lemma_number_progress(s, i);
        } else if s[i] == 91 {
            lemma_skip_ws(s, i + 1);
            lemma_value_progress_items(s, i + 1);
        } else if s[i] == 123 {
            lemma_skip_ws(s, i + 1);
            lemma_value_progress_members(s, i + 1);
        }
    }
}

proof fn lemma_value_progress_items(s: Seq<u8>, i: int)
    ensures
        parse_items(s, i) matches Some(p) ==> i < p.1 <= s.len(),
    decreases s.len() - i, 1int,
{
    if 0 <= i <= s.len() {
        let j = within(i, skip_ws(s, i), s.len() as int);
        lemma_value_progress_value(s, j);
        match parse_value(s, j) {
            Some((v, k0)) => {
                let k = within(j + 1, k0, s.len() as int);
                let m = within(k, skip_ws(s, k), s.len() as int);
                if m < s.len() && s[m] == 44 {
                    lemma_value_progress_items(s, m + 1);
                }
            },
            None => {},
        }
    }
}

proof fn lemma_value_progress_members(s: Seq<u8>, i: int)
    ensures
        parse_members(s, i) matches Some(p) ==> i < p.1 <= s.len(),
    decreases s.len() - i, 1int,
{
    if 0 <= i <= s.len() {
        let j = within(i, skip_ws(s, i), s.len() as int);
        if j < s.len() && s[j] == 34 {
            lemma_string_body_progress(s, j + 1);
            match parse_string_body(s, j + 1) {
                Some((key, k0)) => {
                    let k = within(j + 1, k0, s.len() as int);
                    let m = within(k, skip_ws(s, k), s.len() as int);
                    if m < s.len() && s[m] == 58 {
                        let n = within(m + 1, skip_ws(s, m + 1), s.len() as int);
                        lemma_value_progress_value(s, n);
                        match parse_value(s, n) {
                            Some((v, p0)) => {
                                let p = within(n + 1, p0, s.len() as int);
                                let q = within(p, skip_ws(s, p), s.len() as int);
                                if q < s.len() && s[q] == 44 {
                                    lemma_value_progress_members(s, q + 1);
                                }
                            },
                            None => {},
                        }
                    }
                },
                None => {},
            }
        }
    }
}

/// A whole JSON document: one value surrounded by whitespace only.
pub open spec fn parse_json(s: Seq<u8>) -> Option<JsonVal> {
    match parse_value(s, skip_ws(s, 0)) {
        Some((v, j)) => if skip_ws(s, j) == s.len() {
            Some(v)
        } else {
            None
        },
        None => None,
    }
}

/// The record sequence of a document whose top-level value is an array;
/// `None` for anything else, including valid JSON of another shape.
pub open spec fn json_records(s: Seq<u8>) -> Option<Seq<JsonVal>> {
    match parse_json(s) {
        Some(JsonVal::Arr(items)) => Some(items),
        _ => None,
    }
}

} // verus!

// ---------------------------------------------------------------------------
// The executable parser, proved equal to the grammar above.
// ---------------------------------------------------------------------------

use crate::bytestr::push_bytes;
use crate::value::{
    lemma_member_views_of_push, lemma_views_of_push, member_views_of, views_of, JsonValue,
};

verus! {

/// Scan to the first non-whitespace position at or after `i`.
pub fn ws_end(s: &[u8], i: usize) -> (r: usize)
    requires
        i <= s@.len(),
    ensures
        r as int == skip_ws(s@, i as int),
        i <= r <= s@.len(),
{
    let mut cur: usize = i;
    loop
        invariant
            i <= cur <= s@.len(),
            skip_ws(s@, i as int) == skip_ws(s@, cur as int),
        ensures
            cur <= s@.len(),
            skip_ws(s@, i as int) == skip_ws(s@, cur as int),
            !(cur < s@.len() && is_ws(s@[cur as int])),
        decreases s@.len() - cur,
    {
        if cur == s.len() {
            break;
        }
        let b = s[cur];
        if !(b == 32 || b == 9 || b == 10 || b == 13) {
            break;
        }
        cur = cur + 1;
    }
    cur
}

/// Scan to the first non-digit position at or after `i`.
fn digits_to(s: &[u8], i: usize) -> (r: usize)
    requires
        i <= s@.len(),
    ensures
        r as int == digits_end(s@, i as int),
        i <= r <= s@.len(),
{
    let mut cur: usize = i;
    loop
        invariant
            i <= cur <= s@.len(),
            digits_end(s@, i as int) == digits_end(s@, cur as int),
        ensures
            cur <= s@.len(),
            digits_end(s@, i as int) == digits_end(s@, cur as int),
            !(cur < s@.len() && is_digit(s@[cur as int])),
        decreases s@.len() - cur,
    {
        if cur == s.len() {
            break;
        }
        let b = s[cur];
        if !(b >= 48 && b <= 57) {
            break;
        }
        cur = cur + 1;
    }
    cur
}

/// Decide [`is_hex_digit`].
fn hex_digit(b: u8) -> (r: bool)
    ensures
        r == is_hex_digit(b),
{
    (b >= 48 && b <= 57) || (b >= 65 && b <= 70) || (b >= 97 && b <= 102)
}

/// Scan a string body starting just past the opening quote, collecting the
/// raw content bytes.
fn string_body(s: &[u8], i: usize) -> (r: Option<(Vec<u8>, usize)>)
    requires
        i <= s@.len(),
    ensures
        r matches Some(p) ==> {
            &&& parse_string_body(s@, i as int) == Some((p.0@, p.1 as int))
            &&& i < p.1 <= s@.len()
        },
        r is None ==> parse_string_body(s@, i as int) is None,
{
    let mut acc: Vec<u8> = Vec::new();
    let mut cur: usize = i;
    loop
        invariant
            i <= cur <= s@.len(),
            parse_string_body(s@, cur as int) matches Some(p) ==> parse_string_body(
                s@,
                i as int,
            ) == Some((acc@ + p.0, p.1)),
            parse_string_body(s@, cur as int) is None ==> parse_string_body(
                s@,
                i as int,
            ) is None,
        decreases s@.len() - cur,
    {
        if cur == s.len() {
            return None;
        }
        let b = s[cur];
        if b == 34 {
            proof {
                assert(acc@ + Seq::<u8>::empty() =~= acc@);
                lemma_string_body_progress(s@, i as int);
            }
            return Some((acc, cur + 1));
        } else if b == 92 {
            if s.len() - cur >= 2 {
                let e = s[cur + 1];
                if e == 34 || e == 92 || e == 47 || e == 98 || e == 102 || e == 110 || e == 114
                    || e == 116 {
                    let ghost acc0 = acc@;
                    acc.push(b);
                    acc.push(e);
                    proof {
                        match parse_string_body(s@, cur as int + 2) {
                            Some((c, j)) => {
                                assert(acc0 + (seq![s@[cur as int], s@[cur as int + 1]] + c) =~= acc@
                                    + c);
                            },
                            None => {},
                        }
                    }
                    cur = cur + 2;
                } else if s.len() - cur >= 6 && e == 117 && hex_digit(s[cur + 2]) && hex_digit(
                    s[cur + 3],
                ) && hex_digit(s[cur + 4]) && hex_digit(s[cur + 5]) {
                    let ghost acc0 = acc@;
                    push_bytes(&mut acc, vstd::slice::slice_subrange(s, cur, cur + 6));
                    proof {
                        match parse_string_body(s@, cur as int + 6) {
                            Some((c, j)) => {
                                assert(acc0 + (s@.subrange(cur as int, cur as int + 6) + c) =~= acc@
                                    + c);
                            },
                            None => {},
                        }
                    }
                    cur = cur + 6;
                } else {
                    return None;
                }
            } else {
                return None;
            }
        } else if b >= 32 {
            let ghost acc0 = acc@;
            acc.push(b);
            proof {
                match parse_string_body(s@, cur as int + 1) {
                    Some((c, j)) => {
                        assert(acc0 + (seq![s@[cur as int]] + c) =~= acc@ + c);
                    },
                    None => {},
                }
            }
            cur = cur + 1;
        } else {
            return None;
        }
    }
}

/// Scan a number literal starting at `i`, capturing it verbatim.
fn number_lit(s: &[u8], i: usize) -> (r: Option<(Vec<u8>, usize)>)
    requires
        i < s@.len(),
    ensures
        r matches Some(p) ==> {
            &&& parse_number(s@, i as int) == Some((p.0@, p.1 as int))
            &&& i < p.1 <= s@.len()
        },
        r is None ==> parse_number(s@, i as int) is None,
{
    proof {
        lemma_number_progress(s@, i as int);
    }
    let d = if s[i] == 45 {
        i + 1
    } else {
        i
    };
    if !(d < s.len()) {
        return None;
    }
    let bd = s[d];
    if !(bd >= 48 && bd <= 57) {
        return None;
    }
    let e = if bd == 48 {
        d + 1
    } else {
        digits_to(s, d)
    };
    let f: usize;
    if e < s.len() && s[e] == 46 {
        if s.len() - e >= 2 && s[e + 1] >= 48 && s[e + 1] <= 57 {
            f = digits_to(s, e + 1);
        } else {
            return None;
        }
    } else {
        f = e;
    }
    if f < s.len() && (s[f] == 101 || s[f] == 69) {
        let g = if s.len() - f >= 2 && (s[f + 1] == 43 || s[f + 1] == 45) {
            f + 2
        } else {
            f + 1
        };
        if g < s.len() && s[g] >= 48 && s[g] <= 57 {
            let end = digits_to(s, g);
            return Some((vstd::slice::slice_to_vec(vstd::slice::slice_subrange(s, i, end)), end));
        } else {
            return None;
        }
    } else {
        return Some((vstd::slice::slice_to_vec(vstd::slice::slice_subrange(s, i, f)), f));
    }
}

/// Parse the JSON value starting exactly at `i`, returning the value and the
/// index just past it — precisely what [`parse_value`] says.
pub fn parse_value_at(s: &[u8], i: usize) -> (r: Option<(JsonValue, usize)>)
    requires
        i <= s@.len(),
    ensures
        r matches Some(p) ==> {
            &&& parse_value(s@, i as int) == Some((p.0@, p.1 as int))
            &&& i < p.1 <= s@.len()
        },
        r is None ==> parse_value(s@, i as int) is None,
    decreases s@.len() - i,
{
    proof {
        lemma_value_progress(s@, i as int);
    }
    if i == s.len() {
        return None;
    }
    let b = s[i];
    if b == 110 {  // n
        if s.len() - i >= 4 && s[i + 1] == 117 && s[i + 2] == 108 && s[i + 3] == 108 {
            return Some((JsonValue::Null, i + 4));
        } else {
            return None;
        }
    } else if b == 116 {  // t
        if s.len() - i >= 4 && s[i + 1] == 114 && s[i + 2] == 117 && s[i + 3] == 101 {
            return Some((JsonValue::Bool(true), i + 4));
        } else {
            return None;
        }
    } else if b == 102 {  // f
        if s.len() - i >= 5 && s[i + 1] == 97 && s[i + 2] == 108 && s[i + 3] == 115 && s[i + 4]
            == 101 {
            return Some((JsonValue::Bool(false), i + 5));
        } else {
            return None;
        }
    } else if b == 34 {  // "
        match string_body(s, i + 1) {
            Some((c, j)) => {
                return Some((JsonValue::Str(c), j));
            },
            None => {
                return None;
            },
        }
    } else if b == 45 || (b >= 48 && b <= 57) {
        match number_lit(s, i) {
            Some((lit, j)) => {
                return Some((JsonValue::Num(lit), j));
            },
            None => {
                return None;
            },
        }
    } else if b == 91 {  // [
        let j = ws_end(s, i + 1);
        if j < s.len() && s[j] == 93 {  // ]
            proof {
                assert(views_of(Seq::<JsonValue>::empty()) =~= Seq::<JsonVal>::empty());
            }
            return Some((JsonValue::Arr(Vec::new()), j + 1));
        }
        let mut acc: Vec<JsonValue> = Vec::new();
        let mut cur: usize = i + 1;
        proof {
            assert(views_of(acc@) =~= Seq::<JsonVal>::empty());
        }
        loop
            invariant
                i < cur <= s@.len(),
                i < s@.len(),
                s@[i as int] == 91,
                !(skip_ws(s@, i as int + 1) < s@.len() && s@[skip_ws(s@, i as int + 1)] == 93),
                parse_items(s@, cur as int) matches Some(p) ==> parse_items(s@, i as int + 1)
                    == Some((views_of(acc@) + p.0, p.1)),
                parse_items(s@, cur as int) is None ==> parse_items(s@, i as int + 1) is None,
            decreases s@.len() - cur,
        {
            let j2 = ws_end(s, cur);
            proof {
                lemma_skip_ws(s@, cur as int);
            }
            match parse_value_at(s, j2) {
                None => {
                    return None;
                },
                Some((v, k)) => {
                    proof {
                        lemma_value_progress(s@, j2 as int);
                    }
                    let m = ws_end(s, k);
                    proof {
                        lemma_skip_ws(s@, k as int);
                    }
                    if m < s.len() && s[m] == 44 {  // ,
                        let ghost acc0 = acc@;
                        let ghost vv = v@;
                        acc.push(v);
                        proof {
                            lemma_views_of_push(acc0, acc@[acc@.len() - 1]);
                            assert(views_of(acc@) =~= views_of(acc0) + seq![vv]);
                            match parse_items(s@, m as int + 1) {
                                Some((rest, e2)) => {
                                    assert(views_of(acc0) + (seq![vv] + rest) =~= views_of(acc@)
                                        + rest);
                                },
                                None => {},
                            }
                        }
                        cur = m + 1;
                    } else if m < s.len() && s[m] == 93 {  // ]
                        let ghost acc0 = acc@;
                        let ghost vv = v@;
                        acc.push(v);
                        proof {
                            lemma_views_of_push(acc0, acc@[acc@.len() - 1]);
                            assert(views_of(acc@) =~= views_of(acc0) + seq![vv]);
                        }
                        return Some((JsonValue::Arr(acc), m + 1));
                    } else {
                        return None;
                    }
                },
            }
        }
    } else if b == 123 {  // {
        let j = ws_end(s, i + 1);
        if j < s.len() && s[j] == 125 {  // }
            proof {
                assert(member_views_of(Seq::<(Vec<u8>, JsonValue)>::empty()) =~= Seq::<
                    (Seq<u8>, JsonVal),
                >::empty());
            }
            return Some((JsonValue::Obj(Vec::new()), j + 1));
        }
        let mut acc: Vec<(Vec<u8>, JsonValue)> = Vec::new();
        let mut cur: usize = i + 1;
        proof {
            assert(member_views_of(acc@) =~= Seq::<(Seq<u8>, JsonVal)>::empty());
        }
        loop
            invariant
                i < cur <= s@.len(),
                i < s@.len(),
                s@[i as int] == 123,
                !(skip_ws(s@, i as int + 1) < s@.len() && s@[skip_ws(s@, i as int + 1)] == 125),
                parse_members(s@, cur as int) matches Some(p) ==> parse_members(s@, i as int + 1)
                    == Some((member_views_of(acc@) + p.0, p.1)),
                parse_members(s@, cur as int) is None ==> parse_members(s@, i as int + 1) is None,
            decreases s@.len() - cur,
        {
            let j2 = ws_end(s, cur);
            proof {
                lemma_skip_ws(s@, cur as int);
            }
            if !(j2 < s.len() && s[j2] == 34) {
                return None;
            }
            match string_body(s, j2 + 1) {
                None => {
                    return None;
                },
                Some((key, k)) => {
                    proof {
                        lemma_string_body_progress(s@, j2 as int + 1);
                    }
                    let m = ws_end(s, k);
                    proof {
                        lemma_skip_ws(s@, k as int);
                    }
                    if !(m < s.len() && s[m] == 58) {  // :
                        return None;
                    }
                    let n = ws_end(s, m + 1);
                    proof {
                        lemma_skip_ws(s@, m as int + 1);
                    }
                    match parse_value_at(s, n) {
                        None => {
                            return None;
                        },
                        Some((v, p_end)) => {
                            proof {
                                lemma_value_progress(s@, n as int);
                            }
                            let q = ws_end(s, p_end);
                            proof {
                                lemma_skip_ws(s@, p_end as int);
                            }
                            if q < s.len() && s[q] == 44 {  // ,
                                let ghost acc0 = acc@;
                                let ghost kv = (key@, v@);
                                acc.push((key, v));
                                proof {
                                    lemma_member_views_of_push(
                                        acc0,
                                        acc@[acc@.len() - 1].0,
                                        acc@[acc@.len() - 1].1,
                                    );
                                    assert(member_views_of(acc@) =~= member_views_of(acc0)
                                        + seq![kv]);
                                    match parse_members(s@, q as int + 1) {
                                        Some((rest, e2)) => {
                                            assert(member_views_of(acc0) + (seq![kv] + rest)
                                                =~= member_views_of(acc@) + rest);
                                        },
                                        None => {},
                                    }
                                }
                                cur = q + 1;
                            } else if q < s.len() && s[q] == 125 {  // }
                                let ghost acc0 = acc@;
                                let ghost kv = (key@, v@);
                                acc.push((key, v));
                                proof {
                                    lemma_member_views_of_push(
                                        acc0,
                                        acc@[acc@.len() - 1].0,
                                        acc@[acc@.len() - 1].1,
                                    );
                                    assert(member_views_of(acc@) =~= member_views_of(acc0)
                                        + seq![kv]);
                                }
                                return Some((JsonValue::Obj(acc), q + 1));
                            } else {
                                return None;
                            }
                        },
                    }
                },
            }
        }
    } else {
        return None;
    }
}

/// Parse a whole document: one value surrounded only by whitespace —
/// precisely what [`parse_json`] says.
pub fn parse_json_text(s: &[u8]) -> (r: Option<JsonValue>)
    ensures
        r matches Some(v) ==> parse_json(s@) == Some(v@),
        r is None ==> parse_json(s@) is None,
{
    let start = ws_end(s, 0);
    match parse_value_at(s, start) {
        Some((v, j)) => {
            let e = ws_end(s, j);
            if e == s.len() {
                Some(v)
            } else {
                None
            }
        },
        None => None,
    }
}

/// Parse a document whose top level must be an array, yielding its records —
/// precisely what [`json_records`] says.
pub fn parse_record_array(s: &[u8]) -> (r: Option<Vec<JsonValue>>)
    ensures
        r matches Some(records) ==> json_records(s@) == Some(views_of(records@)),
        r is None ==> json_records(s@) is None,
{
    match parse_json_text(s) {
        Some(JsonValue::Arr(items)) => Some(items),
        Some(_) => None,
        None => None,
    }
}

} // verus!
