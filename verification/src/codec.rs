//! The persisted form of the activity store: a JSON array of activity
//! records, each with an integer `id`, a string `name`, nested `start_time`
//! and `end_time` objects of `{hour, minute, seconds}`, and a boolean
//! `is_now`.  No wrapper object and no version field.
//!
//! [`save_activities`] produces exactly the canonical (compact) document for
//! a collection; [`load_activities`] reads such a document back and, per the
//! "corrupt or missing data is not fatal" policy, answers any input it cannot
//! parse with the empty collection instead of an error.

use crate::structs::{Activity, SimpleTime};
use vstd::prelude::*;
use vstd::string::{StrSliceExecFns, StringExecFns};

verus! {

/// The mathematical shape of one persisted activity record: every field a
/// plain value, the name a sequence of characters.
pub ghost struct ActivityModel {
    pub id: u32,
    pub name: Seq<char>,
    pub start_time: SimpleTime,
    pub end_time: SimpleTime,
    pub is_now: bool,
}

/// The record an activity persists as.
pub open spec fn model(a: Activity) -> ActivityModel {
    ActivityModel {
        id: a.id,
        name: a.name@,
        start_time: a.start_time,
        end_time: a.end_time,
        is_now: a.is_now,
    }
}

/// The records a collection persists as, in order.
pub open spec fn models(s: Seq<Activity>) -> Seq<ActivityModel> {
    s.map_values(|a: Activity| model(a))
}

// ---------------------------------------------------------------------------
// The canonical document, character by character.
// ---------------------------------------------------------------------------
pub open spec fn digit_char(d: int) -> char {
    if d == 0 {
        '0'
    } else if d == 1 {
        '1'
    } else if d == 2 {
        '2'
    } else if d == 3 {
        '3'
    } else if d == 4 {
        '4'
    } else if d == 5 {
        '5'
    } else if d == 6 {
        '6'
    } else if d == 7 {
        '7'
    } else if d == 8 {
        '8'
    } else {
        '9'
    }
}

pub open spec fn hex_char(d: int) -> char {
    if d < 10 {
        digit_char(d)
    } else if d == 10 {
        'a'
    } else if d == 11 {
        'b'
    } else if d == 12 {
        'c'
    } else if d == 13 {
        'd'
    } else if d == 14 {
        'e'
    } else {
        'f'
    }
}

/// The usual decimal digits of `n`, most significant first, no leading
/// zeroes (`0` itself is the single digit `0`).
pub open spec fn dec_rep(n: nat) -> Seq<char>
    decreases n,
{
    if n < 10 {
        seq![digit_char(n as int)]
    } else {
        dec_rep(n / 10).push(digit_char((n % 10) as int))
    }
}

/// How one character of a name is written inside a JSON string: quote and
/// backslash get a backslash escape, control characters get their short
/// escape where JSON has one and a `\u00..` escape otherwise, and every
/// other character stands for itself.
pub open spec fn esc_char(c: char) -> Seq<char> {
    if c == '"' {
        seq!['\\', '"']
    } else if c == '\\' {
        seq!['\\', '\\']
    } else if c == '\u{8}' {
        seq!['\\', 'b']
    } else if c == '\u{c}' {
        seq!['\\', 'f']
    } else if c == '\n' {
        seq!['\\', 'n']
    } else if c == '\r' {
        seq!['\\', 'r']
    } else if c == '\t' {
        seq!['\\', 't']
    } else if (c as u32) < 0x20 {
        seq!['\\', 'u', '0', '0', hex_char(c as u32 as int / 16), hex_char(c as u32 as int % 16)]
    } else {
        seq![c]
    }
}

/// The body of a JSON string: each character escaped in turn.
pub open spec fn esc_string(s: Seq<char>) -> Seq<char>
    decreases s.len(),
{
    if s.len() == 0 {
        Seq::empty()
    } else {
        esc_char(s[0]) + esc_string(s.drop_first())
    }
}

pub open spec fn json_of_bool(b: bool) -> Seq<char> {
    if b {
        "true"@
    } else {
        "false"@
    }
}

pub open spec fn json_of_time(t: SimpleTime) -> Seq<char> {
    "{\"hour\":"@ + dec_rep(t.hour as nat) + ",\"minute\":"@ + dec_rep(t.minute as nat)
        + ",\"seconds\":"@ + dec_rep(t.seconds as nat) + "}"@
}

pub open spec fn json_of_activity(a: ActivityModel) -> Seq<char> {
    "{\"id\":"@ + dec_rep(a.id as nat) + ",\"name\":\""@ + esc_string(a.name) + "\""@
        + ",\"start_time\":"@ + json_of_time(a.start_time) + ",\"end_time\":"@ + json_of_time(
        a.end_time,
    ) + ",\"is_now\":"@ + json_of_bool(a.is_now) + "}"@
}

/// The later elements of the array: a comma before each.
pub open spec fn json_of_rest(s: Seq<ActivityModel>) -> Seq<char>
    decreases s.len(),
{
    if s.len() == 0 {
        Seq::empty()
    } else {
        ","@ + json_of_activity(s[0]) + json_of_rest(s.drop_first())
    }
}

/// The canonical document for a whole collection.
pub open spec fn json_of_activities(s: Seq<ActivityModel>) -> Seq<char> {
    if s.len() == 0 {
        "[]"@
    } else {
        "["@ + json_of_activity(s[0]) + json_of_rest(s.drop_first()) + "]"@
    }
}

// ---------------------------------------------------------------------------
// The parser, as a mathematical function.  Each piece reads a prefix of its
// input and hands back the parsed value with the unread suffix, or nothing
// when the input does not fit the grammar.
// ---------------------------------------------------------------------------
pub open spec fn is_digit(c: char) -> bool {
    '0' as u32 <= c as u32 <= '9' as u32
}

pub open spec fn digit_val(c: char) -> int {
    c as u32 - '0' as u32
}

pub open spec fn is_hex_digit(c: char) -> bool {
    is_digit(c) || 'a' as u32 <= c as u32 <= 'f' as u32
}

pub open spec fn hex_val(c: char) -> int {
    if is_digit(c) {
        digit_val(c)
    } else {
        c as u32 - 'a' as u32 + 10
    }
}

/// How many characters the leading run of decimal digits has.
pub open spec fn num_digits(s: Seq<char>) -> nat
    decreases s.len(),
{
    if s.len() > 0 && is_digit(s[0]) {
        1 + num_digits(s.drop_first())
    } else {
        0
    }
}

/// The value of a sequence of decimal digits, most significant first.
pub open spec fn val_of_digits(d: Seq<char>) -> int
    decreases d.len(),
{
    if d.len() == 0 {
        0
    } else {
        val_of_digits(d.drop_last()) * 10 + digit_val(d.last())
    }
}

/// Reads a decimal number that fits a `u32`: at least one digit, all
/// leading digits consumed, value at most `u32::MAX`.
pub open spec fn parse_u32(s: Seq<char>) -> Option<(u32, Seq<char>)> {
    let k = num_digits(s);
    if k == 0 {
        None
    } else {
        let v = val_of_digits(s.take(k as int));
        if v > u32::MAX {
            None
        } else {
            Some((v as u32, s.skip(k as int)))
        }
    }
}

/// Reads an exact literal.
pub open spec fn parse_lit(s: Seq<char>, lit: Seq<char>) -> Option<Seq<char>> {
    if lit.len() <= s.len() && s.take(lit.len() as int) == lit {
        Some(s.skip(lit.len() as int))
    } else {
        None
    }
}

/// The character a short escape stands for.
pub open spec fn unescape_short(e: char) -> Option<char> {
    if e == '"' {
        Some('"')
    } else if e == '\\' {
        Some('\\')
    } else if e == '/' {
        Some('/')
    } else if e == 'b' {
        Some('\u{8}')
    } else if e == 'f' {
        Some('\u{c}')
    } else if e == 'n' {
        Some('\n')
    } else if e == 'r' {
        Some('\r')
    } else if e == 't' {
        Some('\t')
    } else {
        None
    }
}

/// Reads the body of a JSON string up to and including the closing quote,
/// undoing the escapes of [`esc_char`].  Of the `\u` escapes only the
/// two-digit band `\u00XX` is read back, which covers everything the
/// canonical document writes.
pub open spec fn parse_string_body(s: Seq<char>) -> Option<(Seq<char>, Seq<char>)>
    decreases s.len(),
{
    if s.len() == 0 {
        None
    } else if s[0] == '"' {
        Some((Seq::empty(), s.drop_first()))
    } else if s[0] == '\\' {
        if s.len() < 2 {
            None
        } else if s[1] == 'u' {
            if s.len() < 6 {
                None
            } else if s[2] == '0' && s[3] == '0' && is_hex_digit(s[4]) && is_hex_digit(s[5]) {
                let c = ((hex_val(s[4]) * 16 + hex_val(s[5])) as u8) as char;
                match parse_string_body(s.skip(6)) {
                    None => None,
                    Some((content, rest)) => Some((seq![c] + content, rest)),
                }
            } else {
                None
            }
        } else {
            match unescape_short(s[1]) {
                None => None,
                Some(c) => match parse_string_body(s.skip(2)) {
                    None => None,
                    Some((content, rest)) => Some((seq![c] + content, rest)),
                },
            }
        }
    } else {
        match parse_string_body(s.drop_first()) {
            None => None,
            Some((content, rest)) => Some((seq![s[0]] + content, rest)),
        }
    }
}

/// Reads a number that fits in a `u8`, as the time components must.
pub open spec fn parse_u8(s: Seq<char>) -> Option<(u8, Seq<char>)> {
    match parse_u32(s) {
        None => None,
        Some((v, rest)) => if v > 255 {
            None
        } else {
            Some((v as u8, rest))
        },
    }
}

pub open spec fn parse_time(s: Seq<char>) -> Option<(SimpleTime, Seq<char>)> {
    match parse_lit(s, "{\"hour\":"@) {
        None => None,
        Some(s1) => match parse_u8(s1) {
            None => None,
            Some((hour, s2)) => match parse_lit(s2, ",\"minute\":"@) {
                None => None,
                Some(s3) => match parse_u8(s3) {
                    None => None,
                    Some((minute, s4)) => match parse_lit(s4, ",\"seconds\":"@) {
                        None => None,
                        Some(s5) => match parse_u8(s5) {
                            None => None,
                            Some((seconds, s6)) => match parse_lit(s6, "}"@) {
                                None => None,
                                Some(s7) => Some((SimpleTime { hour, minute, seconds }, s7)),
                            },
                        },
                    },
                },
            },
        },
    }
}

pub open spec fn parse_bool(s: Seq<char>) -> Option<(bool, Seq<char>)> {
    match parse_lit(s, "true"@) {
        Some(rest) => Some((true, rest)),
        None => match parse_lit(s, "false"@) {
            Some(rest) => Some((false, rest)),
            None => None,
        },
    }
}

pub open spec fn parse_activity(s: Seq<char>) -> Option<(ActivityModel, Seq<char>)> {
    match parse_lit(s, "{\"id\":"@) {
        None => None,
        Some(s1) => match parse_u32(s1) {
            None => None,
            Some((id, s2)) => match parse_lit(s2, ",\"name\":\""@) {
                None => None,
                Some(s3) => match parse_string_body(s3) {
                    None => None,
                    Some((name, s4)) => match parse_lit(s4, ",\"start_time\":"@) {
                        None => None,
                        Some(s5) => match parse_time(s5) {
                            None => None,
                            Some((start_time, s6)) => match parse_lit(s6, ",\"end_time\":"@) {
                                None => None,
                                Some(s7) => match parse_time(s7) {
                                    None => None,
                                    Some((end_time, s8)) => match parse_lit(s8, ",\"is_now\":"@) {
                                        None => None,
                                        Some(s9) => match parse_bool(s9) {
                                            None => None,
                                            Some((is_now, s10)) => match parse_lit(s10, "}"@) {
                                                None => None,
                                                Some(s11) => Some(
                                                    (
                                                        ActivityModel {
                                                            id,
                                                            name,
                                                            start_time,
                                                            end_time,
                                                            is_now,
                                                        },
                                                        s11,
                                                    ),
                                                ),
                                            },
                                        },
                                    },
                                },
                            },
                        },
                    },
                },
            },
        },
    }
}

/// Reads the elements of a non-empty array, commas between them, up to and
/// including the closing bracket.  A parse that does not consume input
/// cannot happen; the length check states that, and keeps the recursion
/// well founded.
pub open spec fn parse_acts_rest(s: Seq<char>) -> Option<(Seq<ActivityModel>, Seq<char>)>
    decreases s.len(),
{
    match parse_activity(s) {
        None => None,
        Some((a, rest)) => {
            if rest.len() >= s.len() {
                None
            } else if rest.len() > 0 && rest[0] == ',' {
                match parse_acts_rest(rest.drop_first()) {
                    None => None,
                    Some((tail, rest2)) => Some((seq![a] + tail, rest2)),
                }
            } else if rest.len() > 0 && rest[0] == ']' {
                Some((seq![a], rest.drop_first()))
            } else {
                None
            }
        },
    }
}

/// Reads a whole document: an array of activity records and nothing after
/// it.
pub open spec fn parse_activities(s: Seq<char>) -> Option<Seq<ActivityModel>> {
    if s == "[]"@ {
        Some(Seq::empty())
    } else if s.len() > 0 && s[0] == '[' {
        match parse_acts_rest(s.drop_first()) {
            None => None,
            Some((acts, rest)) => if rest.len() == 0 {
                Some(acts)
            } else {
                None
            },
        }
    } else {
        None
    }
}

/// What loading a document yields: the parsed records, or the empty
/// collection for anything the grammar refuses.
pub open spec fn spec_loaded(s: Seq<char>) -> Seq<ActivityModel> {
    match parse_activities(s) {
        Some(acts) => acts,
        None => Seq::empty(),
    }
}

// ---------------------------------------------------------------------------
// Reading the document.  Each function implements the spec parser of the
// same shape, character for character.
// ---------------------------------------------------------------------------
/// `r` with `pre` prepended to its parsed content, when there is one.
pub open spec fn with_prefix(pre: Seq<char>, r: Option<(Seq<char>, Seq<char>)>) -> Option<
    (Seq<char>, Seq<char>),
> {
    match r {
        None => None,
        Some((content, rest)) => Some((pre + content, rest)),
    }
}

/// `r` with `pre` prepended to its parsed records, when there are any.
pub open spec fn with_front(
    pre: Seq<ActivityModel>,
    r: Option<(Seq<ActivityModel>, Seq<char>)>,
) -> Option<(Seq<ActivityModel>, Seq<char>)> {
    match r {
        None => None,
        Some((tail, rest)) => Some((pre + tail, rest)),
    }
}

fn is_digit_exec(c: char) -> (b: bool)
    ensures
        b == is_digit(c),
{
    let v = c as u32;
    48 <= v && v <= 57
}

fn is_hex_digit_exec(c: char) -> (b: bool)
    ensures
        b == is_hex_digit(c),
{
    let v = c as u32;
    48 <= v && v <= 57 || 97 <= v && v <= 102
}

fn hex_val_exec(c: char) -> (r: u32)
    requires
        is_hex_digit(c),
    ensures
        r == hex_val(c),
{
    let v = c as u32;
    if v <= 57 {
        v - 48
    } else {
        v - 97 + 10
    }
}

fn expect_lit<'a>(s: &'a [char], lit: &str) -> (r: Option<&'a [char]>)
    ensures
        match parse_lit(s@, lit@) {
            None => r is None,
            Some(rest) => r matches Some(rr) && rr@ == rest,
        },
{
    let n = lit.unicode_len();
    if n > s.len() {
        return None;
    }
    let mut i: usize = 0;
    while i < n
        invariant
            i <= n,
            n == lit@.len(),
            n <= s@.len(),
            forall|j: int| 0 <= j < i ==> s@[j] == lit@[j],
        decreases n - i,
    {
        if s[i] != lit.get_char(i) {
            proof {
                assert(s@.take(n as int)[i as int] != lit@[i as int]);
            }
            return None;
        }
        i += 1;
    }
    proof {
        assert(s@.take(n as int) =~= lit@);
        assert((s@.skip(n as int)) =~= s@.subrange(n as int, s@.len() as int));
    }
    Some(&s[n..s.len()])
}

/// The digit run of `s` is exactly its first `k` characters.
proof fn lemma_num_digits_is(s: Seq<char>, k: nat)
    requires
        k <= s.len(),
        forall|i: int| 0 <= i < k ==> is_digit(s[i]),
        k == s.len() || !is_digit(s[k as int]),
    ensures
        num_digits(s) == k,
    decreases k,
{
    if k == 0 {
    } else {
        assert(is_digit(s[0]));
        lemma_num_digits_is(s.drop_first(), (k - 1) as nat);
    }
}

/// Extending a digit prefix by one character multiplies its value by ten
/// and adds the new digit.
proof fn lemma_val_take_snoc(s: Seq<char>, j: int)
    requires
        0 <= j < s.len(),
    ensures
        val_of_digits(s.take(j + 1)) == val_of_digits(s.take(j)) * 10 + digit_val(s[j]),
{
    assert(s.take(j + 1).drop_last() =~= s.take(j));
    assert(s.take(j + 1).last() == s[j]);
}

fn parse_u32_exec<'a>(s: &'a [char]) -> (r: Option<(u32, &'a [char])>)
    ensures
        match parse_u32(s@) {
            None => r is None,
            Some((v, rest)) => r matches Some(p) && p.0 == v && p.1@ == rest,
        },
{
    let n = s.len();
    let mut k: usize = 0;
    while k < n && is_digit_exec(s[k])
        invariant
            k <= n,
            n == s@.len(),
            forall|i: int| 0 <= i < k ==> is_digit(s@[i]),
        decreases n - k,
    {
        k += 1;
    }
    proof {
        lemma_num_digits_is(s@, k as nat);
    }
    if k == 0 {
        return None;
    }
    let mut acc: u64 = 0;
    let mut j: usize = 0;
    while j < k
        invariant
            j <= k,
            k <= n,
            n == s@.len(),
            forall|i: int| 0 <= i < k ==> is_digit(s@[i]),
            val_of_digits(s@.take(j as int)) >= 0,
            val_of_digits(s@.take(j as int)) <= u32::MAX ==> acc == val_of_digits(
                s@.take(j as int),
            ),
            val_of_digits(s@.take(j as int)) > u32::MAX ==> acc == u32::MAX as u64 + 1,
        decreases k - j,
    {
        let d = s[j] as u32 - 48;
        proof {
            lemma_val_take_snoc(s@, j as int);
            assert(digit_val(s@[j as int]) == d);
            assert(0 <= d <= 9);
        }
        if acc <= u32::MAX as u64 {
            let next = acc * 10 + d as u64;
            if next > u32::MAX as u64 {
                acc = u32::MAX as u64 + 1;
            } else {
                acc = next;
            }
        }
        j += 1;
    }
    if acc > u32::MAX as u64 {
        return None;
    }
    proof {
        assert((s@.skip(k as int)) =~= s@.subrange(k as int, n as int));
    }
    Some((acc as u32, &s[k..n]))
}

fn unescape_short_exec(e: char) -> (r: Option<char>)
    ensures
        r == unescape_short(e),
{
    if e == '"' {
        Some('"')
    } else if e == '\\' {
        Some('\\')
    } else if e == '/' {
        Some('/')
    } else if e == 'b' {
        Some('\u{8}')
    } else if e == 'f' {
        Some('\u{c}')
    } else if e == 'n' {
        Some('\n')
    } else if e == 'r' {
        Some('\r')
    } else if e == 't' {
        Some('\t')
    } else {
        None
    }
}

fn parse_string_body_exec<'a>(s: &'a [char]) -> (r: Option<(String, &'a [char])>)
    ensures
        match parse_string_body(s@) {
            None => r is None,
            Some((content, rest)) => r matches Some(p) && p.0@ == content && p.1@ == rest,
        },
{
    let mut acc = String::new();
    let mut cur: &[char] = s;
    proof {
        match parse_string_body(s@) {
            None => {},
            Some((ct, rs)) => {
                assert(Seq::<char>::empty() + ct =~= ct);
            },
        }
    }
    loop
        invariant
            parse_string_body(s@) == with_prefix(acc@, parse_string_body(cur@)),
        decreases cur@.len(),
    {
        let n = cur.len();
        if n == 0 {
            return None;
        }
        let c0 = cur[0];
        if c0 == '"' {
            proof {
                assert(cur@.drop_first() =~= cur@.subrange(1, n as int));
                assert(acc@ + Seq::<char>::empty() =~= acc@);
            }
            return Some((acc, &cur[1..n]));
        } else if c0 == '\\' {
            if n < 2 {
                return None;
            }
            let e = cur[1];
            if e == 'u' {
                if n < 6 {
                    return None;
                }
                if cur[2] == '0' && cur[3] == '0' && is_hex_digit_exec(cur[4]) && is_hex_digit_exec(
                    cur[5],
                ) {
                    let v = hex_val_exec(cur[4]) * 16 + hex_val_exec(cur[5]);
                    let c = (v as u8) as char;
                    let ghost prev = cur@;
                    let ghost acc_prev = acc@;
                    push_char(&mut acc, c);
                    cur = &cur[6..n];
                    proof {
                        assert(cur@ =~= prev.skip(6));
                        assert(acc@ =~= acc_prev + seq![c]);
                        match parse_string_body(cur@) {
                            None => {},
                            Some((ct, rs)) => {
                                assert(acc_prev + (seq![c] + ct) =~= acc@ + ct);
                            },
                        }
                    }
                } else {
                    return None;
                }
            } else {
                match unescape_short_exec(e) {
                    None => {
                        return None;
                    },
                    Some(c) => {
                        let ghost prev = cur@;
                        let ghost acc_prev = acc@;
                        push_char(&mut acc, c);
                        cur = &cur[2..n];
                        proof {
                            assert(cur@ =~= prev.skip(2));
                            assert(acc@ =~= acc_prev + seq![c]);
                            match parse_string_body(cur@) {
                                None => {},
                                Some((ct, rs)) => {
                                    assert(acc_prev + (seq![c] + ct) =~= acc@ + ct);
                                },
                            }
                        }
                    },
                }
            }
        } else {
            let ghost prev = cur@;
            let ghost acc_prev = acc@;
            push_char(&mut acc, c0);
            cur = &cur[1..n];
            proof {
                assert(cur@ =~= prev.drop_first());
                assert(acc@ =~= acc_prev + seq![c0]);
                match parse_string_body(cur@) {
                    None => {},
                    Some((ct, rs)) => {
                        assert(acc_prev + (seq![c0] + ct) =~= acc@ + ct);
                    },
                }
            }
        }
    }
}

fn parse_u8_exec<'a>(s: &'a [char]) -> (r: Option<(u8, &'a [char])>)
    ensures
        match parse_u8(s@) {
            None => r is None,
            Some((v, rest)) => r matches Some(p) && p.0 == v && p.1@ == rest,
        },
{
    match parse_u32_exec(s) {
        None => None,
        Some((v, rest)) => if v > 255 {
            None
        } else {
            Some((v as u8, rest))
        },
    }
}

fn parse_time_exec<'a>(s: &'a [char]) -> (r: Option<(SimpleTime, &'a [char])>)
    ensures
        match parse_time(s@) {
            None => r is None,
            Some((t, rest)) => r matches Some(p) && p.0 == t && p.1@ == rest,
        },
{
    let s1 = match expect_lit(s, "{\"hour\":") {
        None => {
            return None;
        },
        Some(x) => x,
    };
    let (hour, s2) = match parse_u8_exec(s1) {
        None => {
            return None;
        },
        Some(x) => x,
    };
    let s3 = match expect_lit(s2, ",\"minute\":") {
        None => {
            return None;
        },
        Some(x) => x,
    };
    let (minute, s4) = match parse_u8_exec(s3) {
        None => {
            return None;
        },
        Some(x) => x,
    };
    let s5 = match expect_lit(s4, ",\"seconds\":") {
        None => {
            return None;
        },
        Some(x) => x,
    };
    let (seconds, s6) = match parse_u8_exec(s5) {
        None => {
            return None;
        },
        Some(x) => x,
    };
    let s7 = match expect_lit(s6, "}") {
        None => {
            return None;
        },
        Some(x) => x,
    };
    Some((SimpleTime { hour, minute, seconds }, s7))
}

fn parse_bool_exec<'a>(s: &'a [char]) -> (r: Option<(bool, &'a [char])>)
    ensures
        match parse_bool(s@) {
            None => r is None,
            Some((b, rest)) => r matches Some(p) && p.0 == b && p.1@ == rest,
        },
{
    match expect_lit(s, "true") {
        Some(rest) => Some((true, rest)),
        None => match expect_lit(s, "false") {
            Some(rest) => Some((false, rest)),
            None => None,
        },
    }
}

fn parse_activity_exec<'a>(s: &'a [char]) -> (r: Option<(Activity, &'a [char])>)
    ensures
        match parse_activity(s@) {
            None => r is None,
            Some((m, rest)) => r matches Some(p) && model(p.0) == m && p.1@ == rest,
        },
{
    let s1 = match expect_lit(s, "{\"id\":") {
        None => {
            return None;
        },
        Some(x) => x,
    };
    let (id, s2) = match parse_u32_exec(s1) {
        None => {
            return None;
        },
        Some(x) => x,
    };
    let s3 = match expect_lit(s2, ",\"name\":\"") {
        None => {
            return None;
        },
        Some(x) => x,
    };
    let (name, s4) = match parse_string_body_exec(s3) {
        None => {
            return None;
        },
        Some(x) => x,
    };
    let s5 = match expect_lit(s4, ",\"start_time\":") {
        None => {
            return None;
        },
        Some(x) => x,
    };
    let (start_time, s6) = match parse_time_exec(s5) {
        None => {
            return None;
        },
        Some(x) => x,
    };
    let s7 = match expect_lit(s6, ",\"end_time\":") {
        None => {
            return None;
        },
        Some(x) => x,
    };
    let (end_time, s8) = match parse_time_exec(s7) {
        None => {
            return None;
        },
        Some(x) => x,
    };
    let s9 = match expect_lit(s8, ",\"is_now\":") {
        None => {
            return None;
        },
        Some(x) => x,
    };
    let (is_now, s10) = match parse_bool_exec(s9) {
        None => {
            return None;
        },
        Some(x) => x,
    };
    let s11 = match expect_lit(s10, "}") {
        None => {
            return None;
        },
        Some(x) => x,
    };
    Some((Activity { id, name, start_time, end_time, is_now }, s11))
}

fn parse_acts_rest_exec<'a>(s: &'a [char]) -> (r: Option<(Vec<Activity>, &'a [char])>)
    ensures
        match parse_acts_rest(s@) {
            None => r is None,
            Some((ms, rest)) => r matches Some(p) && models(p.0@) == ms && p.1@ == rest,
        },
{
    let mut acc: Vec<Activity> = Vec::new();
    let mut cur: &[char] = s;
    proof {
        assert(models(acc@) =~= Seq::<ActivityModel>::empty());
        match parse_acts_rest(s@) {
            None => {},
            Some((tl, rs)) => {
                assert(Seq::<ActivityModel>::empty() + tl =~= tl);
            },
        }
    }
    loop
        invariant
            parse_acts_rest(s@) == with_front(models(acc@), parse_acts_rest(cur@)),
        decreases cur@.len(),
    {
        let ghost prev = cur@;
        let ghost acc_prev = acc@;
        let (a, rem) = match parse_activity_exec(cur) {
            None => {
                return None;
            },
            Some(x) => x,
        };
        if rem.len() >= cur.len() {
            return None;
        }
        if rem.len() > 0 && rem[0] == ',' {
            let n = rem.len();
            acc.push(a);
            cur = &rem[1..n];
            proof {
                assert(cur@ =~= rem@.drop_first());
                assert(models(acc@) =~= models(acc_prev).push(model(a)));
                match parse_acts_rest(cur@) {
                    None => {},
                    Some((tl, rs)) => {
                        assert(models(acc_prev) + (seq![model(a)] + tl) =~= models(acc@) + tl);
                    },
                }
            }
        } else if rem.len() > 0 && rem[0] == ']' {
            let n = rem.len();
            acc.push(a);
            proof {
                assert(models(acc@) =~= models(acc_prev).push(model(a)));
                assert(rem@.drop_first() =~= rem@.subrange(1, rem@.len() as int));
                assert(models(acc_prev) + seq![model(a)] =~= models(acc@));
            }
            return Some((acc, &rem[1..n]));
        } else {
            return None;
        }
    }
}

/// Reads a document back into a collection: the records it encodes when the
/// whole input fits the grammar, and the empty collection otherwise.  No
/// input is an error.
pub fn load_activities(s: &str) -> (r: Vec<Activity>)
    ensures
        models(r@) == spec_loaded(s@),
        parse_activities(s@) is None ==> r@.len() == 0,
{
    let n = s.unicode_len();
    let mut chars: Vec<char> = Vec::new();
    let mut i: usize = 0;
    while i < n
        invariant
            i <= n,
            n == s@.len(),
            chars@ == s@.take(i as int),
        decreases n - i,
    {
        let c = s.get_char(i);
        chars.push(c);
        proof {
            assert(chars@ =~= s@.take(i + 1));
        }
        i += 1;
    }
    proof {
        assert(chars@ =~= s@);
        reveal_strlit("[]");
    }
    let sl: &[char] = chars.as_slice();
    if chars.len() == 2 && sl[0] == '[' && sl[1] == ']' {
        proof {
            assert(s@ =~= "[]"@);
            assert(models(Seq::<Activity>::empty()) =~= Seq::<ActivityModel>::empty());
        }
        return Vec::new();
    }
    proof {
        assert(s@ != "[]"@);
        assert(models(Seq::<Activity>::empty()) =~= Seq::<ActivityModel>::empty());
    }
    if chars.len() > 0 && sl[0] == '[' {
        proof {
            assert(sl@.subrange(1, sl@.len() as int) =~= s@.drop_first());
        }
        match parse_acts_rest_exec(&sl[1..chars.len()]) {
            None => Vec::new(),
            Some((v, rem)) => {
                if rem.len() == 0 {
                    v
                } else {
                    Vec::new()
                }
            },
        }
    } else {
        Vec::new()
    }
}

// ---------------------------------------------------------------------------
// Writing the document.
// ---------------------------------------------------------------------------
/// Relies on `String::push`: appends exactly the given character.
#[verifier::external_body]
fn push_char(out: &mut String, c: char)
    ensures
        final(out)@ == old(out)@.push(c),
{
    out.push(c)
}

fn digit_to_char(d: u32) -> (r: char)
    requires
        d < 10,
    ensures
        r == digit_char(d as int),
{
    if d == 0 {
        '0'
    } else if d == 1 {
        '1'
    } else if d == 2 {
        '2'
    } else if d == 3 {
        '3'
    } else if d == 4 {
        '4'
    } else if d == 5 {
        '5'
    } else if d == 6 {
        '6'
    } else if d == 7 {
        '7'
    } else if d == 8 {
        '8'
    } else {
        '9'
    }
}

fn hex_to_char(d: u32) -> (r: char)
    requires
        d < 16,
    ensures
        r == hex_char(d as int),
{
    if d < 10 {
        digit_to_char(d)
    } else if d == 10 {
        'a'
    } else if d == 11 {
        'b'
    } else if d == 12 {
        'c'
    } else if d == 13 {
        'd'
    } else if d == 14 {
        'e'
    } else {
        'f'
    }
}

fn push_dec(out: &mut String, n: u32)
    ensures
        final(out)@ == old(out)@ + dec_rep(n as nat),
    decreases n,
{
    if n < 10 {
        push_char(out, digit_to_char(n));
        proof {
            assert(out@ =~= old(out)@ + dec_rep(n as nat));
        }
    } else {
        push_dec(out, n / 10);
        push_char(out, digit_to_char(n % 10));
        proof {
            assert(out@ =~= old(out)@ + dec_rep(n as nat));
        }
    }
}

fn push_escaped_char(out: &mut String, c: char)
    ensures
        final(out)@ == old(out)@ + esc_char(c),
{
    if c == '"' {
        push_char(out, '\\');
        push_char(out, '"');
    } else if c == '\\' {
        push_char(out, '\\');
        push_char(out, '\\');
    } else if c == '\u{8}' {
        push_char(out, '\\');
        push_char(out, 'b');
    } else if c == '\u{c}' {
        push_char(out, '\\');
        push_char(out, 'f');
    } else if c == '\n' {
        push_char(out, '\\');
        push_char(out, 'n');
    } else if c == '\r' {
        push_char(out, '\\');
        push_char(out, 'r');
    } else if c == '\t' {
        push_char(out, '\\');
        push_char(out, 't');
    } else if (c as u32) < 0x20 {
        let v = c as u32;
        push_char(out, '\\');
        push_char(out, 'u');
        push_char(out, '0');
        push_char(out, '0');
        push_char(out, hex_to_char(v / 16));
        push_char(out, hex_to_char(v % 16));
    } else {
        push_char(out, c);
    }
    proof {
        assert(out@ =~= old(out)@ + esc_char(c));
    }
}

/// Appends the escaped tail of `name` from character `i` on.
fn push_escaped_from(out: &mut String, name: &str, i: usize)
    requires
        i <= name@.len(),
    ensures
        final(out)@ == old(out)@ + esc_string(name@.skip(i as int)),
    decreases name@.len() - i,
{
    let n = name.unicode_len();
    if i < n {
        let c = name.get_char(i);
        push_escaped_char(out, c);
        push_escaped_from(out, name, i + 1);
        proof {
            assert(name@.skip(i as int).drop_first() =~= name@.skip(i + 1));
            assert(name@.skip(i as int)[0] == c);
            assert(out@ =~= old(out)@ + esc_string(name@.skip(i as int)));
        }
    } else {
        proof {
            assert(name@.skip(i as int) =~= Seq::<char>::empty());
            assert(out@ =~= old(out)@ + esc_string(name@.skip(i as int)));
        }
    }
}

fn push_time(out: &mut String, t: &SimpleTime)
    ensures
        final(out)@ == old(out)@ + json_of_time(*t),
{
    out.append("{\"hour\":");
    push_dec(out, t.hour as u32);
    out.append(",\"minute\":");
    push_dec(out, t.minute as u32);
    out.append(",\"seconds\":");
    push_dec(out, t.seconds as u32);
    out.append("}");
    proof {
        assert(out@ =~= old(out)@ + json_of_time(*t));
    }
}

fn push_bool(out: &mut String, b: bool)
    ensures
        final(out)@ == old(out)@ + json_of_bool(b),
{
    if b {
        out.append("true");
    } else {
        out.append("false");
    }
}

#[verifier::rlimit(100)]
#[verifier::spinoff_prover]
fn push_activity(out: &mut String, a: &Activity)
    ensures
        final(out)@ == old(out)@ + json_of_activity(model(*a)),
{
    out.append("{\"id\":");
    push_dec(out, a.id);
    out.append(",\"name\":\"");
    push_escaped_from(out, a.name.as_str(), 0);
    out.append("\"");
    out.append(",\"start_time\":");
    push_time(out, &a.start_time);
    out.append(",\"end_time\":");
    push_time(out, &a.end_time);
    out.append(",\"is_now\":");
    push_bool(out, a.is_now);
    out.append("}");
    proof {
        assert(a.name@.skip(0) =~= a.name@);
        assert(out@ =~= old(out)@ + json_of_activity(model(*a)));
    }
}

/// Appends the elements of `acts` from index `i` on, a comma before each.
fn push_rest(out: &mut String, acts: &Vec<Activity>, i: usize)
    requires
        1 <= i <= acts@.len(),
    ensures
        final(out)@ == old(out)@ + json_of_rest(models(acts@).skip(i as int)),
    decreases acts@.len() - i,
{
    if i < acts.len() {
        out.append(",");
        push_activity(out, &acts[i]);
        push_rest(out, acts, i + 1);
        proof {
            let m = models(acts@);
            assert(m.skip(i as int).drop_first() =~= m.skip(i + 1));
            assert(m.skip(i as int)[0] == model(acts@[i as int]));
            assert(out@ =~= old(out)@ + json_of_rest(m.skip(i as int)));
        }
    } else {
        proof {
            assert(models(acts@).skip(i as int) =~= Seq::<ActivityModel>::empty());
            assert(out@ =~= old(out)@ + json_of_rest(models(acts@).skip(i as int)));
        }
    }
}

/// Writes the whole collection as its canonical JSON document: an empty
/// collection becomes the empty array `[]`, anything else one object per
/// record, in collection order.
pub fn save_activities(acts: &Vec<Activity>) -> (r: String)
    ensures
        r@ == json_of_activities(models(acts@)),
{
    let mut out = String::new();
    if acts.len() == 0 {
        out.append("[]");
    } else {
        out.append("[");
        push_activity(&mut out, &acts[0]);
        push_rest(&mut out, acts, 1);
        out.append("]");
        proof {
            let m = models(acts@);
            assert(m.skip(1) =~= m.drop_first());
            assert(out@ =~= json_of_activities(m));
        }
    }
    out
}

// ---------------------------------------------------------------------------
// The round trip: reading a canonical document back yields exactly the
// records it was written from.
// ---------------------------------------------------------------------------
proof fn lemma_parse_lit_concat(lit: Seq<char>, rest: Seq<char>)
    ensures
        parse_lit(lit + rest, lit) == Some(rest),
{
    assert((lit + rest).take(lit.len() as int) =~= lit);
    assert((lit + rest).skip(lit.len() as int) =~= rest);
}

proof fn lemma_dec_rep_digits(n: nat)
    ensures
        dec_rep(n).len() >= 1,
        forall|i: int| 0 <= i < dec_rep(n).len() ==> is_digit(#[trigger] dec_rep(n)[i]),
    decreases n,
{
    if n < 10 {
        assert(is_digit(digit_char(n as int)));
    } else {
        lemma_dec_rep_digits(n / 10);
        assert(is_digit(digit_char((n % 10) as int)));
        assert(forall|i: int|
            0 <= i < dec_rep(n).len() - 1 ==> #[trigger] dec_rep(n)[i] == dec_rep(n / 10)[i]);
    }
}

proof fn lemma_num_digits_concat(d: Seq<char>, rest: Seq<char>)
    requires
        forall|i: int| 0 <= i < d.len() ==> is_digit(#[trigger] d[i]),
        rest.len() == 0 || !is_digit(rest[0]),
    ensures
        num_digits(d + rest) == d.len(),
    decreases d.len(),
{
    if d.len() == 0 {
        assert(d + rest =~= rest);
    } else {
        assert((d + rest)[0] == d[0]);
        assert((d + rest).drop_first() =~= d.drop_first() + rest);
        lemma_num_digits_concat(d.drop_first(), rest);
    }
}

proof fn lemma_val_dec_rep(n: nat)
    ensures
        val_of_digits(dec_rep(n)) == n,
    decreases n,
{
    if n < 10 {
        assert(dec_rep(n).drop_last() =~= Seq::<char>::empty());
        assert(dec_rep(n).last() == digit_char(n as int));
        assert(val_of_digits(Seq::<char>::empty()) == 0);
        assert(digit_val(digit_char(n as int)) == n);
    } else {
        lemma_val_dec_rep(n / 10);
        assert(dec_rep(n).drop_last() =~= dec_rep(n / 10));
        assert(dec_rep(n).last() == digit_char((n % 10) as int));
        assert(digit_val(digit_char((n % 10) as int)) == n % 10);
        assert(n / 10 * 10 + n % 10 == n) by (nonlinear_arith);
    }
}

proof fn lemma_parse_u32_of(n: u32, rest: Seq<char>)
    requires
        rest.len() == 0 || !is_digit(rest[0]),
    ensures
        parse_u32(dec_rep(n as nat) + rest) == Some((n, rest)),
{
    let d = dec_rep(n as nat);
    let s = d + rest;
    lemma_dec_rep_digits(n as nat);
    lemma_num_digits_concat(d, rest);
    lemma_val_dec_rep(n as nat);
    assert(s.take(d.len() as int) =~= d);
    assert(s.skip(d.len() as int) =~= rest);
}

proof fn lemma_parse_u8_of(n: u8, rest: Seq<char>)
    requires
        rest.len() == 0 || !is_digit(rest[0]),
    ensures
        parse_u8(dec_rep(n as nat) + rest) == Some((n, rest)),
{
    lemma_parse_u32_of(n as u32, rest);
}

proof fn lemma_parse_string_of(name: Seq<char>, rest: Seq<char>)
    ensures
        parse_string_body(esc_string(name) + seq!['"'] + rest) == Some((name, rest)),
    decreases name.len(),
{
    let s = esc_string(name) + seq!['"'] + rest;
    if name.len() == 0 {
        assert(s =~= seq!['"'] + rest);
        assert(s[0] == '"');
        assert(s.drop_first() =~= rest);
    } else {
        let c = name[0];
        let tail = name.drop_first();
        let x = esc_string(tail) + seq!['"'] + rest;
        assert(s =~= esc_char(c) + x);
        lemma_parse_string_of(tail, rest);
        if c == '"' {
            assert(s[0] == '\\' && s[1] == '"');
            assert(s.skip(2) =~= x);
            assert(seq![c] + tail =~= name);
        } else if c == '\\' {
            assert(s[0] == '\\' && s[1] == '\\');
            assert(s.skip(2) =~= x);
            assert(seq![c] + tail =~= name);
        } else if c == '\u{8}' {
            assert(s[0] == '\\' && s[1] == 'b');
            assert(s.skip(2) =~= x);
            assert(seq![c] + tail =~= name);
        } else if c == '\u{c}' {
            assert(s[0] == '\\' && s[1] == 'f');
            assert(s.skip(2) =~= x);
            assert(seq![c] + tail =~= name);
        } else if c == '\n' {
            assert(s[0] == '\\' && s[1] == 'n');
            assert(s.skip(2) =~= x);
            assert(seq![c] + tail =~= name);
        } else if c == '\r' {
            assert(s[0] == '\\' && s[1] == 'r');
            assert(s.skip(2) =~= x);
            assert(seq![c] + tail =~= name);
        } else if c == '\t' {
            assert(s[0] == '\\' && s[1] == 't');
            assert(s.skip(2) =~= x);
            assert(seq![c] + tail =~= name);
        } else if (c as u32) < 0x20 {
            let v = c as u32 as int;
            assert(s[0] == '\\' && s[1] == 'u' && s[2] == '0' && s[3] == '0');
            assert(s[4] == hex_char(v / 16) && s[5] == hex_char(v % 16));
            assert(0 <= v / 16 < 16 && 0 <= v % 16 < 16);
            assert(is_hex_digit(hex_char(v / 16)) && hex_val(hex_char(v / 16)) == v / 16);
            assert(is_hex_digit(hex_char(v % 16)) && hex_val(hex_char(v % 16)) == v % 16);
            assert(v / 16 * 16 + v % 16 == v) by (nonlinear_arith);
            let w = hex_val(s[4]) * 16 + hex_val(s[5]);
            assert(w == v);
            assert((w as u8) as u32 == c as u32);
            vstd::utf8::char_u32_cast(c, (w as u8) as u32);
            assert(((w as u8) as u32) as char == c);
            assert((w as u8) as char == c);
            assert(s.len() >= 6);
            assert(s.skip(6) =~= x);
            assert(seq![c] + tail =~= name);
        } else {
            assert(s[0] == c && c != '"' && c != '\\');
            assert(s.drop_first() =~= x);
            assert(seq![c] + tail =~= name);
        }
    }
}

proof fn lemma_parse_time_of(t: SimpleTime, rest: Seq<char>)
    requires
        rest.len() == 0 || !is_digit(rest[0]),
    ensures
        parse_time(json_of_time(t) + rest) == Some((t, rest)),
{
    reveal_strlit("{\"hour\":");
    reveal_strlit(",\"minute\":");
    reveal_strlit(",\"seconds\":");
    reveal_strlit("}");
    let s = json_of_time(t) + rest;
    let x6 = "}"@ + rest;
    let x5 = dec_rep(t.seconds as nat) + x6;
    let x4 = ",\"seconds\":"@ + x5;
    let x3 = dec_rep(t.minute as nat) + x4;
    let x2 = ",\"minute\":"@ + x3;
    let x1 = dec_rep(t.hour as nat) + x2;
    assert(s =~= "{\"hour\":"@ + x1);
    lemma_parse_lit_concat("{\"hour\":"@, x1);
    assert(x2[0] == ',' && !is_digit(','));
    lemma_parse_u8_of(t.hour, x2);
    lemma_parse_lit_concat(",\"minute\":"@, x3);
    assert(x4[0] == ',' && !is_digit(','));
    lemma_parse_u8_of(t.minute, x4);
    lemma_parse_lit_concat(",\"seconds\":"@, x5);
    assert(x6[0] == '}' && !is_digit('}'));
    lemma_parse_u8_of(t.seconds, x6);
    lemma_parse_lit_concat("}"@, rest);
    assert(SimpleTime { hour: t.hour, minute: t.minute, seconds: t.seconds } == t);
}

proof fn lemma_parse_bool_of(b: bool, rest: Seq<char>)
    ensures
        parse_bool(json_of_bool(b) + rest) == Some((b, rest)),
{
    reveal_strlit("true");
    reveal_strlit("false");
    let s = json_of_bool(b) + rest;
    if b {
        lemma_parse_lit_concat("true"@, rest);
    } else {
        assert(s[0] == 'f');
        if "true"@.len() <= s.len() {
            assert(s.take("true"@.len() as int)[0] == 'f');
            assert(s.take("true"@.len() as int) != "true"@);
        }
        assert(parse_lit(s, "true"@) is None);
        lemma_parse_lit_concat("false"@, rest);
    }
}

#[verifier::rlimit(100)]
#[verifier::spinoff_prover]
proof fn lemma_parse_activity_of(a: ActivityModel, rest: Seq<char>)
    ensures
        parse_activity(json_of_activity(a) + rest) == Some((a, rest)),
{
    reveal_strlit("{\"id\":");
    reveal_strlit(",\"name\":\"");
    reveal_strlit("\"");
    reveal_strlit(",\"start_time\":");
    reveal_strlit(",\"end_time\":");
    reveal_strlit(",\"is_now\":");
    reveal_strlit("}");
    let s = json_of_activity(a) + rest;
    let x10 = "}"@ + rest;
    let x9 = json_of_bool(a.is_now) + x10;
    let x8 = ",\"is_now\":"@ + x9;
    let x7 = json_of_time(a.end_time) + x8;
    let x6 = ",\"end_time\":"@ + x7;
    let x5 = json_of_time(a.start_time) + x6;
    let x4 = ",\"start_time\":"@ + x5;
    let x3 = esc_string(a.name) + seq!['"'] + x4;
    let x2 = ",\"name\":\""@ + x3;
    let x1 = dec_rep(a.id as nat) + x2;
    assert(s =~= "{\"id\":"@ + x1);
    lemma_parse_lit_concat("{\"id\":"@, x1);
    assert(x2[0] == ',' && !is_digit(','));
    lemma_parse_u32_of(a.id, x2);
    lemma_parse_lit_concat(",\"name\":\""@, x3);
    lemma_parse_string_of(a.name, x4);
    lemma_parse_lit_concat(",\"start_time\":"@, x5);
    assert(x6[0] == ',' && !is_digit(','));
    lemma_parse_time_of(a.start_time, x6);
    lemma_parse_lit_concat(",\"end_time\":"@, x7);
    assert(x8[0] == ',' && !is_digit(','));
    lemma_parse_time_of(a.end_time, x8);
    lemma_parse_lit_concat(",\"is_now\":"@, x9);
    lemma_parse_bool_of(a.is_now, x10);
    lemma_parse_lit_concat("}"@, rest);
    assert(ActivityModel {
        id: a.id,
        name: a.name,
        start_time: a.start_time,
        end_time: a.end_time,
        is_now: a.is_now,
    } == a);
}

proof fn lemma_json_of_activity_nonempty(a: ActivityModel)
    ensures
        json_of_activity(a).len() >= 1,
{
    reveal_strlit("{\"id\":");
}

#[verifier::rlimit(100)]
#[verifier::spinoff_prover]
proof fn lemma_parse_acts_rest_of(acts: Seq<ActivityModel>)
    requires
        acts.len() >= 1,
    ensures
        parse_acts_rest(
            json_of_activity(acts[0]) + json_of_rest(acts.drop_first()) + seq![']'],
        ) == Some((acts, Seq::<char>::empty())),
    decreases acts.len(),
{
    reveal_strlit(",");
    let tail = acts.drop_first();
    let r = json_of_rest(tail) + seq![']'];
    let s = json_of_activity(acts[0]) + r;
    assert(s =~= json_of_activity(acts[0]) + json_of_rest(tail) + seq![']']);
    lemma_parse_activity_of(acts[0], r);
    lemma_json_of_activity_nonempty(acts[0]);
    assert(r.len() < s.len());
    if tail.len() == 0 {
        assert(r =~= seq![']']);
        assert(r[0] == ']');
        assert(r.drop_first() =~= Seq::<char>::empty());
        assert(seq![acts[0]] =~= acts);
    } else {
        assert(json_of_rest(tail) == ","@ + json_of_activity(tail[0]) + json_of_rest(
            tail.drop_first(),
        ));
        assert(r[0] == ',');
        lemma_parse_acts_rest_of(tail);
        assert(r.drop_first() =~= json_of_activity(tail[0]) + json_of_rest(tail.drop_first())
            + seq![']']);
        assert(seq![acts[0]] + tail =~= acts);
    }
}

/// The round trip behind saving and loading: parsing the canonical document
/// of any collection of records gives back exactly those records, so a
/// collection written by [`save_activities`] is recovered unchanged by
/// [`load_activities`].
pub proof fn lemma_save_load_round_trip(acts: Seq<ActivityModel>)
    ensures
        parse_activities(json_of_activities(acts)) == Some(acts),
        spec_loaded(json_of_activities(acts)) == acts,
{
    reveal_strlit("[]");
    reveal_strlit("[");
    reveal_strlit("]");
    let s = json_of_activities(acts);
    if acts.len() == 0 {
        assert(s == "[]"@);
    } else {
        lemma_json_of_activity_nonempty(acts[0]);
        assert(s.len() >= 3);
        assert(s != "[]"@);
        assert(s[0] == '[');
        assert("]"@ =~= seq![']']);
        assert(s.drop_first() =~= json_of_activity(acts[0]) + json_of_rest(acts.drop_first())
            + seq![']']);
        lemma_parse_acts_rest_of(acts);
    }
}

} // verus!
