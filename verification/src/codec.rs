//! The persisted form of the registry: one JSON array of records, each
//! holding a timer's name and duration.  The running state is never written.
//! Serializing emits one compact array.  Parsing tolerates JSON whitespace
//! between any two tokens (so pretty-printed files load too), expects the
//! keys in the order the format gives them, and fails soft on anything
//! else: a malformed file yields an empty record list.

use vstd::prelude::*;

use crate::registry::{spec_revive, spec_strip, RecordModel, Registry, TimerRecord};
use crate::text::{
    chars_to_string, digit_val, is_digit, lemma_dec_denotes, lemma_dec_no_leading_zero, push_dec,
    push_str_chars, seq_to_int, spec_dec, str_to_chars,
};
use crate::timer::{Dur, TimerModel, NANOS_PER_SEC};

verus! {

/// The persisted definitions of a sequence of records.
pub open spec fn record_models(rs: Seq<TimerRecord>) -> Seq<RecordModel> {
    rs.map_values(|r: TimerRecord| r@)
}

/// Whether `c` is a control character, which JSON forbids raw inside a
/// string.
pub open spec fn is_control(c: char) -> bool {
    (c as u32) < 32
}

/// Whether `c` is a lower-case hexadecimal digit.
pub open spec fn is_hex(c: char) -> bool {
    ('0' <= c && c <= '9') || ('a' <= c && c <= 'f')
}

/// The value of a lower-case hexadecimal digit.
pub open spec fn hex_val(c: char) -> int {
    if '0' <= c && c <= '9' {
        c as int - '0' as int
    } else {
        c as int - 'a' as int + 10
    }
}

/// The lower-case hexadecimal digit for a value below sixteen.
pub open spec fn hex_char(d: int) -> char {
    if d < 10 {
        crate::text::digit_char(d)
    } else if d == 10 {
        'a'
    } else if d == 11 {
        'b'
    } else if d == 12 {
        'c'
    } else if d == 13 {
        'd'
    } else if d == 14 {
        'e'
    } else {
        'f'
    }
}

/// A hexadecimal digit character denotes its value.
proof fn lemma_hex_char_val(d: int)
    requires
        0 <= d < 16,
    ensures
        hex_val(hex_char(d)) == d,
        is_hex(hex_char(d)),
{
}

/// The lower-case hexadecimal digit for `d`.
fn hex_char_exec(d: u64) -> (r: char)
    requires
        d < 16,
    ensures
        r == hex_char(d as int),
{
    if d < 10 {
        crate::text::digit_char_exec(d)
    } else {
        match d {
            10 => 'a',
            11 => 'b',
            12 => 'c',
            13 => 'd',
            14 => 'e',
            _ => 'f',
        }
    }
}

/// Whether `c` is a lower-case hexadecimal digit.
fn is_hex_exec(c: char) -> (r: bool)
    ensures
        r == is_hex(c),
{
    ('0' <= c && c <= '9') || ('a' <= c && c <= 'f')
}

/// The value of a lower-case hexadecimal digit.
fn hex_val_exec(c: char) -> (r: u32)
    requires
        is_hex(c),
    ensures
        r == hex_val(c),
        r < 16,
{
    if c >= '0' && c <= '9' {
        (c as u32) - 48
    } else {
        (c as u32) - 97 + 10
    }
}

/// A name character as it is written inside a JSON string: quote and
/// backslash get a backslash before them, a control character becomes a
/// four-digit hexadecimal escape, all else stands as it is.
pub open spec fn spec_esc_char(c: char) -> Seq<char> {
    if c == '"' || c == '\\' {
        seq!['\\', c]
    } else if is_control(c) {
        seq!['\\', 'u', '0', '0', hex_char((c as u32 / 16) as int), hex_char((c as u32 % 16) as int)]
    } else {
        seq![c]
    }
}

/// A name as it is written inside a JSON string.
pub open spec fn spec_esc(name: Seq<char>) -> Seq<char>
    decreases name.len(),
{
    if name.len() == 0 {
        Seq::empty()
    } else {
        spec_esc_char(name[0]) + spec_esc(name.drop_first())
    }
}

/// One record as it is written: the name, escaped, then the duration as
/// whole seconds and a nanosecond remainder.
pub open spec fn spec_record_text(r: RecordModel) -> Seq<char> {
    "{"@ + "\"name\""@ + ":"@ + "\""@ + spec_esc(r.name) + "\""@ + ","@ + "\"duration\""@ + ":"@
        + "{"@ + "\"secs\""@ + ":"@ + spec_dec(r.duration.secs as nat) + ","@ + "\"nanos\""@
        + ":"@ + spec_dec(r.duration.nanos as nat) + "}"@ + "}"@
}

/// The records from position `k` on, comma-separated.
pub open spec fn spec_body_from(rs: Seq<RecordModel>, k: int) -> Seq<char>
    decreases rs.len() - k,
{
    if k < 0 || k >= rs.len() {
        Seq::empty()
    } else if k == rs.len() - 1 {
        spec_record_text(rs[k])
    } else {
        spec_record_text(rs[k]) + seq![','] + spec_body_from(rs, k + 1)
    }
}

/// A record sequence as it is persisted: one JSON array of records.
pub open spec fn spec_serialize(rs: Seq<RecordModel>) -> Seq<char> {
    seq!['['] + spec_body_from(rs, 0) + seq![']']
}

/// Append the escaped form of `name`'s characters from position `i` on.
fn push_esc_from(v: &mut Vec<char>, name: &str, i: usize)
    requires
        i <= name@.len(),
    ensures
        final(v)@ == old(v)@ + spec_esc(name@.subrange(i as int, name@.len() as int)),
    decreases name@.len() - i,
{
    let len: usize = name.unicode_len();
    let ghost tail = name@.subrange(i as int, len as int);
    if i < len {
        let c = name.get_char(i);
        if c == '"' || c == '\\' {
            v.push('\\');
            v.push(c);
        } else if (c as u32) < 32 {
            v.push('\\');
            v.push('u');
            v.push('0');
            v.push('0');
            v.push(hex_char_exec(((c as u32) / 16) as u64));
            v.push(hex_char_exec(((c as u32) % 16) as u64));
        } else {
            v.push(c);
        }
        proof {
            assert(tail[0] == c);
            assert(tail.drop_first() =~= name@.subrange(i + 1, len as int));
            assert(v@ =~= old(v)@ + spec_esc_char(c));
        }
        push_esc_from(v, name, i + 1);
        proof {
            assert(old(v)@ + spec_esc_char(c) + spec_esc(name@.subrange(i + 1, len as int))
                =~= old(v)@ + spec_esc(tail));
        }
    } else {
        proof {
            assert(tail =~= Seq::<char>::empty());
            assert(v@ =~= old(v)@ + spec_esc(tail));
        }
    }
}

/// Append one record's text.
fn push_record(v: &mut Vec<char>, r: &TimerRecord)
    ensures
        final(v)@ == old(v)@ + spec_record_text(r@),
{
    push_str_chars(v, "{");
    push_str_chars(v, "\"name\"");
    push_str_chars(v, ":");
    push_str_chars(v, "\"");
    push_esc_from(v, r.name.as_str(), 0);
    proof {
        assert(r.name@.subrange(0, r.name@.len() as int) =~= r.name@);
    }
    push_str_chars(v, "\"");
    push_str_chars(v, ",");
    push_str_chars(v, "\"duration\"");
    push_str_chars(v, ":");
    push_str_chars(v, "{");
    push_str_chars(v, "\"secs\"");
    push_str_chars(v, ":");
    push_dec(v, r.duration.secs);
    push_str_chars(v, ",");
    push_str_chars(v, "\"nanos\"");
    push_str_chars(v, ":");
    push_dec(v, r.duration.nanos as u64);
    push_str_chars(v, "}");
    push_str_chars(v, "}");
    proof {
        assert(v@ =~= old(v)@ + spec_record_text(r@));
    }
}

/// Append the text of the records from position `i` on, comma-separated.
fn push_records_from(v: &mut Vec<char>, recs: &Vec<TimerRecord>, i: usize)
    requires
        i <= recs@.len(),
    ensures
        final(v)@ == old(v)@ + spec_body_from(record_models(recs@), i as int),
    decreases recs@.len() - i,
{
    let ghost ms = record_models(recs@);
    if i < recs.len() {
        push_record(v, &recs[i]);
        proof {
            assert(ms[i as int] == recs@[i as int]@);
        }
        if i + 1 < recs.len() {
            v.push(',');
            push_records_from(v, recs, i + 1);
            proof {
                assert(old(v)@ + spec_record_text(ms[i as int]) + seq![','] + spec_body_from(
                    ms,
                    i + 1,
                ) =~= old(v)@ + spec_body_from(ms, i as int));
            }
        }
    } else {
        proof {
            assert(v@ =~= old(v)@ + spec_body_from(ms, i as int));
        }
    }
}

/// The persisted text of a sequence of records: one JSON array.
pub fn to_json(recs: &Vec<TimerRecord>) -> (r: String)
    ensures
        r@ == spec_serialize(record_models(recs@)),
{
    let mut v: Vec<char> = Vec::new();
    v.push('[');
    push_records_from(&mut v, recs, 0);
    v.push(']');
    proof {
        assert(v@ =~= spec_serialize(record_models(recs@)));
    }
    chars_to_string(&v)
}

/// Whether `c` is JSON whitespace.
pub open spec fn is_ws(c: char) -> bool {
    c == ' ' || c == '\t' || c == '\n' || c == '\r'
}

/// The first position at or after `i` that holds no whitespace.
pub open spec fn spec_skip_ws(s: Seq<char>, i: int) -> int
    decreases s.len() - i,
{
    if 0 <= i < s.len() && is_ws(s[i]) {
        spec_skip_ws(s, i + 1)
    } else {
        i
    }
}

/// The position after the literal `lit`, where `s` holds it at `i`.
pub open spec fn spec_parse_lit(s: Seq<char>, i: int, lit: Seq<char>) -> Option<int> {
    if 0 <= i && i + lit.len() <= s.len() && s.subrange(i, i + lit.len()) == lit {
        Some(i + lit.len() as int)
    } else {
        None
    }
}

/// The next token at `i`: whitespace, as much as stands there, then the
/// literal `lit`.
pub open spec fn spec_parse_tok(s: Seq<char>, i: int, lit: Seq<char>) -> Option<int> {
    spec_parse_lit(s, spec_skip_ws(s, i), lit)
}

/// The content of a JSON string, read from just after the opening quote up
/// to and over the closing one.  A backslash escapes a quote, a second
/// backslash, or a low code point written `u00` and two hexadecimal
/// digits; a raw control character is rejected, as JSON demands; any other
/// character stands for itself.
pub open spec fn spec_parse_string_body(s: Seq<char>, i: int) -> Option<(Seq<char>, int)>
    decreases s.len() - i,
{
    if i < 0 || i >= s.len() {
        None
    } else if s[i] == '"' {
        Some((Seq::empty(), i + 1))
    } else if s[i] == '\\' {
        if i + 1 < s.len() && (s[i + 1] == '"' || s[i + 1] == '\\') {
            match spec_parse_string_body(s, i + 2) {
                Some((t, j)) => Some((seq![s[i + 1]] + t, j)),
                None => None,
            }
        } else if i + 5 < s.len() && s[i + 1] == 'u' && s[i + 2] == '0' && s[i + 3] == '0'
            && is_hex(s[i + 4]) && is_hex(s[i + 5]) {
            let c = ((hex_val(s[i + 4]) * 16 + hex_val(s[i + 5])) as u8) as char;
            match spec_parse_string_body(s, i + 6) {
                Some((t, j)) => Some((seq![c] + t, j)),
                None => None,
            }
        } else {
            None
        }
    } else if is_control(s[i]) {
        None
    } else {
        match spec_parse_string_body(s, i + 1) {
            Some((t, j)) => Some((seq![s[i]] + t, j)),
            None => None,
        }
    }
}

/// The end of the run of decimal digits that starts at `i`.
pub open spec fn spec_digits_end(s: Seq<char>, i: int) -> int
    decreases s.len() - i,
{
    if 0 <= i < s.len() && is_digit(s[i]) {
        spec_digits_end(s, i + 1)
    } else {
        i
    }
}

/// The digit run ends exactly where the digits do.
pub proof fn lemma_digits_end_exact(s: Seq<char>, i: int, k: int)
    requires
        0 <= i <= k <= s.len(),
        forall|j: int| i <= j < k ==> is_digit(#[trigger] s[j]),
        k == s.len() || !is_digit(s[k]),
    ensures
        spec_digits_end(s, i) == k,
    decreases k - i,
{
    if i < k {
        lemma_digits_end_exact(s, i + 1, k);
    }
}

/// The value of a run of decimal digits, `None` where there is no digit,
/// a leading zero pads the run (which JSON forbids), or the value passes
/// the largest 64-bit number.
pub open spec fn spec_parse_u64(s: Seq<char>, i: int) -> Option<(u64, int)> {
    let j = spec_digits_end(s, i);
    if j == i {
        None
    } else if s[i] == '0' && j > i + 1 {
        None
    } else if seq_to_int(s.subrange(i, j)) <= u64::MAX {
        Some((seq_to_int(s.subrange(i, j)) as u64, j))
    } else {
        None
    }
}

/// The next number at `i`: whitespace, as much as stands there, then a run
/// of decimal digits.
pub open spec fn spec_parse_num(s: Seq<char>, i: int) -> Option<(u64, int)> {
    spec_parse_u64(s, spec_skip_ws(s, i))
}

/// One record, read from `i`: the braces, keys and punctuation (whitespace
/// tolerated before each), the escaped name, then the two numbers, the
/// nanosecond one below one second.  Keys come in the fixed order the
/// persisted format gives.
pub open spec fn spec_parse_record(s: Seq<char>, i: int) -> Option<(RecordModel, int)> {
    match spec_parse_tok(s, i, "{"@) {
        None => None,
        Some(a1) => match spec_parse_tok(s, a1, "\"name\""@) {
            None => None,
            Some(a2) => match spec_parse_tok(s, a2, ":"@) {
                None => None,
                Some(a3) => match spec_parse_tok(s, a3, "\""@) {
                    None => None,
                    Some(a4) => match spec_parse_string_body(s, a4) {
                        None => None,
                        Some((name, a5)) => match spec_parse_tok(s, a5, ","@) {
                            None => None,
                            Some(a6) => match spec_parse_tok(s, a6, "\"duration\""@) {
                                None => None,
                                Some(a7) => match spec_parse_tok(s, a7, ":"@) {
                                    None => None,
                                    Some(a8) => match spec_parse_tok(s, a8, "{"@) {
                                        None => None,
                                        Some(a9) => spec_parse_record_tail(s, a9, name),
                                    },
                                },
                            },
                        },
                    },
                },
            },
        },
    }
}

/// The rest of a record after `"duration":{` — the two numbers under their
/// keys, then the closing braces.
pub open spec fn spec_parse_record_tail(s: Seq<char>, i: int, name: Seq<char>) -> Option<
    (RecordModel, int),
> {
    match spec_parse_tok(s, i, "\"secs\""@) {
        None => None,
        Some(b1) => match spec_parse_tok(s, b1, ":"@) {
            None => None,
            Some(b2) => match spec_parse_num(s, b2) {
                None => None,
                Some((secs, b3)) => match spec_parse_tok(s, b3, ","@) {
                    None => None,
                    Some(b4) => match spec_parse_tok(s, b4, "\"nanos\""@) {
                        None => None,
                        Some(b5) => match spec_parse_tok(s, b5, ":"@) {
                            None => None,
                            Some(b6) => match spec_parse_num(s, b6) {
                                None => None,
                                Some((nanos, b7)) => if nanos < NANOS_PER_SEC as u64 {
                                    match spec_parse_tok(s, b7, "}"@) {
                                        None => None,
                                        Some(b8) => match spec_parse_tok(s, b8, "}"@) {
                                            None => None,
                                            Some(b9) => Some(
                                                (
                                                    RecordModel {
                                                        name,
                                                        duration: Dur {
                                                            secs,
                                                            nanos: nanos as u32,
                                                        },
                                                    },
                                                    b9,
                                                ),
                                            ),
                                        },
                                    }
                                } else {
                                    None
                                },
                            },
                        },
                    },
                },
            },
        },
    }
}

/// The records from `i` up to and over the closing bracket: records
/// separated by commas (whitespace tolerated around them), ended by `]`.
pub open spec fn spec_parse_records(s: Seq<char>, i: int) -> Option<(Seq<RecordModel>, int)>
    decreases s.len() - i,
{
    match spec_parse_record(s, i) {
        None => None,
        Some((r, j)) => {
            let j2 = spec_skip_ws(s, j);
            if j2 < s.len() && s[j2] == ',' {
                let j3 = spec_skip_ws(s, j2 + 1);
                if i < j3 <= s.len() {
                    match spec_parse_records(s, j3) {
                        Some((rest, k)) => Some((seq![r] + rest, k)),
                        None => None,
                    }
                } else {
                    None
                }
            } else if j2 < s.len() && s[j2] == ']' {
                Some((seq![r], j2 + 1))
            } else {
                None
            }
        },
    }
}

/// A whole persisted file: one JSON array of records and nothing else
/// around it but whitespace.
pub open spec fn spec_parse_top(s: Seq<char>) -> Option<Seq<RecordModel>> {
    let i = spec_skip_ws(s, 0);
    if 0 <= i < s.len() && s[i] == '[' {
        let j = spec_skip_ws(s, i + 1);
        if j < s.len() && s[j] == ']' {
            if spec_skip_ws(s, j + 1) == s.len() {
                Some(Seq::empty())
            } else {
                None
            }
        } else {
            match spec_parse_records(s, j) {
                Some((rs, k)) => if k <= s.len() && spec_skip_ws(s, k) == s.len() {
                    Some(rs)
                } else {
                    None
                },
                None => None,
            }
        }
    } else {
        None
    }
}

/// Whether `c` is JSON whitespace.
fn is_ws_exec(c: char) -> (r: bool)
    ensures
        r == is_ws(c),
{
    c == ' ' || c == '\t' || c == '\n' || c == '\r'
}

/// The first position at or after `i` that holds no whitespace.
fn skip_ws(s: &Vec<char>, i: usize) -> (r: usize)
    requires
        i <= s@.len(),
    ensures
        r as int == spec_skip_ws(s@, i as int),
        i <= r <= s@.len(),
{
    let mut j: usize = i;
    while j < s.len() && is_ws_exec(s[j])
        invariant
            i <= j <= s@.len(),
            spec_skip_ws(s@, i as int) == spec_skip_ws(s@, j as int),
        decreases s@.len() - j,
    {
        j += 1;
    }
    j
}

/// The position after the literal `lit`, where `s` holds it at `i`.
fn parse_lit(s: &Vec<char>, i: usize, lit: &str) -> (r: Option<usize>)
    requires
        i <= s@.len(),
    ensures
        match r {
            Some(j) => spec_parse_lit(s@, i as int, lit@) == Some(j as int) && i <= j <= s@.len(),
            None => spec_parse_lit(s@, i as int, lit@) is None,
        },
{
    let n: usize = lit.unicode_len();
    if n > s.len() - i {
        return None;
    }
    let mut k: usize = 0;
    while k < n
        invariant
            k <= n,
            n == lit@.len(),
            i + n <= s@.len(),
            s@.len() <= usize::MAX,
            forall|j: int| 0 <= j < k ==> s@[i + j] == lit@[j],
        decreases n - k,
    {
        if s[i + k] != lit.get_char(k) {
            proof {
                assert(s@.subrange(i as int, i + n)[k as int] == s@[i + k]);
            }
            return None;
        }
        k += 1;
    }
    proof {
        assert(s@.subrange(i as int, i + n) =~= lit@);
    }
    Some(i + n)
}

/// The next token: whitespace, as much as stands there, then `lit`.
fn parse_tok(s: &Vec<char>, i: usize, lit: &str) -> (r: Option<usize>)
    requires
        i <= s@.len(),
    ensures
        match r {
            Some(j) => spec_parse_tok(s@, i as int, lit@) == Some(j as int) && i <= j <= s@.len(),
            None => spec_parse_tok(s@, i as int, lit@) is None,
        },
{
    let k = skip_ws(s, i);
    parse_lit(s, k, lit)
}

/// The content of a JSON string, read from just after the opening quote up
/// to and over the closing one.
fn parse_string_body(s: &Vec<char>, i: usize) -> (r: Option<(Vec<char>, usize)>)
    requires
        i <= s@.len(),
    ensures
        match r {
            Some((name, j)) => spec_parse_string_body(s@, i as int) == Some((name@, j as int)) && i
                < j <= s@.len(),
            None => spec_parse_string_body(s@, i as int) is None,
        },
    decreases s@.len() - i,
{
    if i >= s.len() {
        return None;
    }
    let c = s[i];
    if c == '"' {
        let name: Vec<char> = Vec::new();
        proof {
            assert(name@ =~= Seq::<char>::empty());
        }
        Some((name, i + 1))
    } else if c == '\\' {
        if i + 1 < s.len() {
            let e = s[i + 1];
            if e == '"' || e == '\\' {
                match parse_string_body(s, i + 2) {
                    Some((t, j)) => {
                        let mut name = t;
                        name.insert(0, e);
                        proof {
                            assert(name@ =~= seq![e] + spec_parse_string_body(
                                s@,
                                i + 2,
                            )->Some_0.0);
                        }
                        Some((name, j))
                    },
                    None => None,
                }
            } else if e == 'u' && s.len() - i > 5 {
                let h2 = s[i + 2];
                let h3 = s[i + 3];
                let h4 = s[i + 4];
                let h5 = s[i + 5];
                if h2 == '0' && h3 == '0' && is_hex_exec(h4) && is_hex_exec(h5) {
                    let code: u32 = hex_val_exec(h4) * 16 + hex_val_exec(h5);
                    let ch: char = (code as u8) as char;
                    match parse_string_body(s, i + 6) {
                        Some((t, j)) => {
                            let mut name = t;
                            name.insert(0, ch);
                            proof {
                                assert(name@ =~= seq![ch] + spec_parse_string_body(
                                    s@,
                                    i + 6,
                                )->Some_0.0);
                            }
                            Some((name, j))
                        },
                        None => None,
                    }
                } else {
                    None
                }
            } else {
                None
            }
        } else {
            None
        }
    } else if (c as u32) < 32 {
        None
    } else {
        match parse_string_body(s, i + 1) {
            Some((t, j)) => {
                let mut name = t;
                name.insert(0, c);
                proof {
                    assert(name@ =~= seq![c] + spec_parse_string_body(s@, i + 1)->Some_0.0);
                }
                Some((name, j))
            },
            None => None,
        }
    }
}

/// The digit run that starts at `i` runs to `spec_digits_end` and holds
/// digits alone.
proof fn lemma_digits_end_chars(s: Seq<char>, i: int)
    requires
        0 <= i <= s.len(),
    ensures
        i <= spec_digits_end(s, i) <= s.len(),
        forall|j: int| i <= j < spec_digits_end(s, i) ==> is_digit(#[trigger] s[j]),
        spec_digits_end(s, i) < s.len() ==> !is_digit(s[spec_digits_end(s, i)]),
    decreases s.len() - i,
{
    if i < s.len() && is_digit(s[i]) {
        lemma_digits_end_chars(s, i + 1);
    }
}

/// A digit sequence denotes a non-negative number, and no prefix of it
/// denotes more than the whole.
proof fn lemma_seq_to_int_prefix(s: Seq<char>, k: int)
    requires
        0 <= k <= s.len(),
        forall|j: int| 0 <= j < s.len() ==> is_digit(#[trigger] s[j]),
    ensures
        0 <= seq_to_int(s.subrange(0, k)) <= seq_to_int(s),
    decreases s.len(),
{
    if s.len() == 0 {
        assert(s.subrange(0, k) =~= s);
    } else if k == s.len() {
        assert(s.subrange(0, k) =~= s);
        let d = s.drop_last();
        assert(forall|j: int| 0 <= j < d.len() ==> is_digit(#[trigger] d[j]));
        lemma_seq_to_int_prefix(d, d.len() as int);
        assert(d.subrange(0, d.len() as int) =~= d);
    } else {
        let d = s.drop_last();
        assert(forall|j: int| 0 <= j < d.len() ==> is_digit(#[trigger] d[j]));
        assert(s.subrange(0, k) =~= d.subrange(0, k));
        lemma_seq_to_int_prefix(d, k);
        lemma_seq_to_int_prefix(d, d.len() as int);
        assert(d.subrange(0, d.len() as int) =~= d);
    }
}

/// The value of the digit run that starts at `i`, within 64 bits.
fn parse_u64(s: &Vec<char>, i: usize) -> (r: Option<(u64, usize)>)
    requires
        i <= s@.len(),
    ensures
        match r {
            Some((v, j)) => spec_parse_u64(s@, i as int) == Some((v, j as int)) && i < j
                <= s@.len(),
            None => spec_parse_u64(s@, i as int) is None,
        },
{
    let ghost e = spec_digits_end(s@, i as int);
    proof {
        lemma_digits_end_chars(s@, i as int);
    }
    let mut j: usize = i;
    let mut acc: u64 = 0;
    while j < s.len() && s[j] >= '0' && s[j] <= '9'
        invariant
            i <= j <= e <= s@.len(),
            e == spec_digits_end(s@, i as int),
            forall|t: int| i <= t < e ==> is_digit(#[trigger] s@[t]),
            e < s@.len() ==> !is_digit(s@[e]),
            acc == seq_to_int(s@.subrange(i as int, j as int)),
        decreases s@.len() - j,
    {
        let c = s[j];
        let d: u64 = ((c as u32) - 48) as u64;
        proof {
            assert(is_digit(c));
            assert(j < e);
            assert(0 <= d <= 9);
            assert(digit_val(c) == d);
        }
        if acc > (u64::MAX - d) / 10 {
            proof {
                let full = s@.subrange(i as int, e as int);
                let cur = s@.subrange(i as int, j + 1);
                assert(cur.drop_last() =~= s@.subrange(i as int, j as int));
                assert(cur.last() == c);
                assert(seq_to_int(cur) == acc * 10 + d);
                vstd::arithmetic::div_mod::lemma_fundamental_div_mod(
                    u64::MAX - d,
                    10,
                );
                vstd::arithmetic::div_mod::lemma_mod_bound(u64::MAX - d, 10);
                assert(acc * 10 + d > u64::MAX);
                assert(forall|t: int| 0 <= t < full.len() ==> is_digit(#[trigger] full[t]));
                assert(cur =~= full.subrange(0, j + 1 - i));
                lemma_seq_to_int_prefix(full, j + 1 - i);
                assert(seq_to_int(full) > u64::MAX);
            }
            return None;
        }
        proof {
            vstd::arithmetic::div_mod::lemma_fundamental_div_mod(u64::MAX - d, 10);
            vstd::arithmetic::div_mod::lemma_mod_bound(u64::MAX - d, 10);
            assert(acc * 10 + d <= u64::MAX);
            let cur = s@.subrange(i as int, j + 1);
            assert(cur.drop_last() =~= s@.subrange(i as int, j as int));
            assert(cur.last() == c);
        }
        acc = acc * 10 + d;
        j += 1;
    }
    proof {
        if j < s@.len() {
            assert(!is_digit(s@[j as int]));
        }
        lemma_digits_end_exact(s@, i as int, j as int);
    }
    if j == i {
        None
    } else if s[i] == '0' && j > i + 1 {
        None
    } else {
        Some((acc, j))
    }
}

/// The next number: whitespace, as much as stands there, then the digit
/// run's value, within 64 bits.
fn parse_num(s: &Vec<char>, i: usize) -> (r: Option<(u64, usize)>)
    requires
        i <= s@.len(),
    ensures
        match r {
            Some((v, j)) => spec_parse_num(s@, i as int) == Some((v, j as int)) && i < j
                <= s@.len(),
            None => spec_parse_num(s@, i as int) is None,
        },
{
    let k = skip_ws(s, i);
    parse_u64(s, k)
}

/// One record, read from `i`.
fn parse_record(s: &Vec<char>, i: usize) -> (r: Option<(TimerRecord, usize)>)
    requires
        i <= s@.len(),
    ensures
        match r {
            Some((rec, j)) => spec_parse_record(s@, i as int) == Some((rec@, j as int)) && i < j
                <= s@.len() && rec.duration.wf(),
            None => spec_parse_record(s@, i as int) is None,
        },
{
    let a1 = match parse_tok(s, i, "{") {
        Some(j) => j,
        None => {
            return None;
        },
    };
    let a2 = match parse_tok(s, a1, "\"name\"") {
        Some(j) => j,
        None => {
            return None;
        },
    };
    let a3 = match parse_tok(s, a2, ":") {
        Some(j) => j,
        None => {
            return None;
        },
    };
    let a4 = match parse_tok(s, a3, "\"") {
        Some(j) => j,
        None => {
            return None;
        },
    };
    let (name, a5) = match parse_string_body(s, a4) {
        Some(p) => p,
        None => {
            return None;
        },
    };
    let a6 = match parse_tok(s, a5, ",") {
        Some(j) => j,
        None => {
            return None;
        },
    };
    let a7 = match parse_tok(s, a6, "\"duration\"") {
        Some(j) => j,
        None => {
            return None;
        },
    };
    let a8 = match parse_tok(s, a7, ":") {
        Some(j) => j,
        None => {
            return None;
        },
    };
    let a9 = match parse_tok(s, a8, "{") {
        Some(j) => j,
        None => {
            return None;
        },
    };
    let b1 = match parse_tok(s, a9, "\"secs\"") {
        Some(j) => j,
        None => {
            return None;
        },
    };
    let b2 = match parse_tok(s, b1, ":") {
        Some(j) => j,
        None => {
            return None;
        },
    };
    let (secs, b3) = match parse_num(s, b2) {
        Some(p) => p,
        None => {
            return None;
        },
    };
    let b4 = match parse_tok(s, b3, ",") {
        Some(j) => j,
        None => {
            return None;
        },
    };
    let b5 = match parse_tok(s, b4, "\"nanos\"") {
        Some(j) => j,
        None => {
            return None;
        },
    };
    let b6 = match parse_tok(s, b5, ":") {
        Some(j) => j,
        None => {
            return None;
        },
    };
    let (nanos, b7) = match parse_num(s, b6) {
        Some(p) => p,
        None => {
            return None;
        },
    };
    if nanos >= NANOS_PER_SEC as u64 {
        return None;
    }
    let b8 = match parse_tok(s, b7, "}") {
        Some(j) => j,
        None => {
            return None;
        },
    };
    let b9 = match parse_tok(s, b8, "}") {
        Some(j) => j,
        None => {
            return None;
        },
    };
    let rec = TimerRecord {
        name: chars_to_string(&name),
        duration: Dur { secs, nanos: nanos as u32 },
    };
    Some((rec, b9))
}

/// The records from `i` up to and over the closing bracket.
fn parse_records(s: &Vec<char>, i: usize) -> (r: Option<(Vec<TimerRecord>, usize)>)
    requires
        i <= s@.len(),
    ensures
        match r {
            Some((v, j)) => spec_parse_records(s@, i as int) == Some(
                (record_models(v@), j as int),
            ) && j <= s@.len() && forall|p: int|
                0 <= p < v@.len() ==> (#[trigger] v@[p]).duration.wf(),
            None => spec_parse_records(s@, i as int) is None,
        },
    decreases s@.len() - i,
{
    let (rec, j) = match parse_record(s, i) {
        Some(p) => p,
        None => {
            return None;
        },
    };
    let j2 = skip_ws(s, j);
    if j2 < s.len() && s[j2] == ',' {
        let j3 = skip_ws(s, j2 + 1);
        if i < j3 {
            match parse_records(s, j3) {
                Some((rest, k)) => {
                    let mut v = rest;
                    v.insert(0, rec);
                    proof {
                        assert(record_models(v@) =~= seq![rec@] + record_models(v@.drop_first()));
                    }
                    Some((v, k))
                },
                None => None,
            }
        } else {
            None
        }
    } else if j2 < s.len() && s[j2] == ']' {
        let mut v: Vec<TimerRecord> = Vec::new();
        v.push(rec);
        proof {
            assert(record_models(v@) =~= seq![rec@]);
        }
        Some((v, j2 + 1))
    } else {
        None
    }
}

/// Read a whole persisted file: `Some` of its records where it is exactly
/// one well-formed JSON array of them, `None` on anything malformed.
pub fn from_json(text: &str) -> (r: Option<Vec<TimerRecord>>)
    ensures
        match r {
            Some(v) => spec_parse_top(text@) == Some(record_models(v@)) && forall|p: int|
                0 <= p < v@.len() ==> (#[trigger] v@[p]).duration.wf(),
            None => spec_parse_top(text@) is None,
        },
{
    let s = str_to_chars(text);
    let i = skip_ws(&s, 0);
    if i < s.len() && s[i] == '[' {
        let j = skip_ws(&s, i + 1);
        if j < s.len() && s[j] == ']' {
            if skip_ws(&s, j + 1) == s.len() {
                let v: Vec<TimerRecord> = Vec::new();
                proof {
                    assert(record_models(v@) =~= Seq::<RecordModel>::empty());
                }
                Some(v)
            } else {
                None
            }
        } else {
            match parse_records(&s, j) {
                Some((v, k)) => {
                    if skip_ws(&s, k) == s.len() {
                        Some(v)
                    } else {
                        None
                    }
                },
                None => None,
            }
        }
    } else {
        None
    }
}

/// Load persisted records, failing soft: a file that is not one well-formed
/// JSON array of records yields no records at all, so that startup goes on
/// with an empty registry.
pub fn load_records(text: &str) -> (r: Vec<TimerRecord>)
    ensures
        match spec_parse_top(text@) {
            Some(rs) => record_models(r@) == rs,
            None => r@.len() == 0,
        },
        forall|p: int| 0 <= p < r@.len() ==> (#[trigger] r@[p]).duration.wf(),
{
    match from_json(text) {
        Some(v) => v,
        None => Vec::new(),
    }
}

/// The persisted text of the whole registry: every timer's definition, in
/// order, without the transient running state.
pub fn registry_json(reg: &Registry) -> (r: String)
    ensures
        r@ == spec_serialize(reg@.map_values(|t: TimerModel| spec_strip(t))),
{
    let snap = reg.snapshot_for_persistence();
    proof {
        assert(record_models(snap@) =~= reg@.map_values(|t: TimerModel| spec_strip(t)));
    }
    to_json(&snap)
}

/// Load the registry from persisted text, failing soft: a malformed file
/// yields an empty registry, a well-formed one yields its timers in order,
/// none of them running.
pub fn load_registry(text: &str) -> (r: Registry)
    ensures
        match spec_parse_top(text@) {
            Some(rs) => r@.len() == rs.len() && forall|i: int|
                0 <= i < rs.len() ==> (#[trigger] r@[i]) == spec_revive(rs[i]),
            None => r@.len() == 0,
        },
        forall|i: int|
            0 <= i < r@.len() ==> (#[trigger] r@[i]).started is None && r@[i].duration.wf(),
{
    let recs = load_records(text);
    let reg = Registry::from_records(recs);
    proof {
        if spec_parse_top(text@) is Some {
            let rs = spec_parse_top(text@)->Some_0;
            assert forall|i: int| 0 <= i < rs.len() implies (#[trigger] reg@[i]) == spec_revive(
                rs[i],
            ) by {
                assert(record_models(recs@)[i] == recs@[i]@);
            }
        }
    }
    reg
}

/// Round trip at the registry level: persisting any registry and parsing
/// the text back yields the same definitions — names and durations
/// identical, in order — and reviving them leaves every timer not running,
/// whatever its running state was when persisted.
pub proof fn lemma_registry_round_trip(s: Seq<TimerModel>)
    requires
        forall|i: int| 0 <= i < s.len() ==> (#[trigger] s[i]).duration.wf(),
    ensures
        ({
            let rs = s.map_values(|t: TimerModel| spec_strip(t));
            spec_parse_top(spec_serialize(rs)) == Some(rs) && rs.len() == s.len() && forall|i: int|
                0 <= i < s.len() ==> (#[trigger] spec_revive(rs[i])) == TimerModel {
                    name: s[i].name,
                    duration: s[i].duration,
                    started: None,
                }
        }),
{
    let rs = s.map_values(|t: TimerModel| spec_strip(t));
    assert forall|p: int| 0 <= p < rs.len() implies (#[trigger] rs[p]).duration.wf() by {
        assert(rs[p] == spec_strip(s[p]));
    }
    lemma_round_trip(rs);
}

/// Where `s` holds `a + b` at `i`, it holds `a` at `i` and `b` right after.
proof fn lemma_subrange_split(s: Seq<char>, i: int, a: Seq<char>, b: Seq<char>)
    requires
        0 <= i,
        i + a.len() + b.len() <= s.len(),
        s.subrange(i, i + a.len() + b.len()) == a + b,
    ensures
        s.subrange(i, i + a.len()) == a,
        s.subrange(i + a.len(), i + a.len() + b.len()) == b,
{
    assert forall|j: int| 0 <= j < a.len() implies s.subrange(i, i + a.len())[j] == a[j] by {
        assert(s.subrange(i, i + a.len() + b.len())[j] == (a + b)[j]);
    }
    assert(s.subrange(i, i + a.len()) =~= a);
    assert forall|j: int|
        0 <= j < b.len() implies s.subrange(i + a.len(), i + a.len() + b.len())[j] == b[j] by {
        assert(s.subrange(i, i + a.len() + b.len())[a.len() + j] == (a + b)[a.len() + j]);
        assert(s.subrange(i, i + a.len() + b.len())[a.len() + j] == s[i + a.len() + j]);
        assert((a + b)[a.len() + j] == b[j]);
        assert(s.subrange(i + a.len(), i + a.len() + b.len())[j] == s[i + a.len() + j]);
    }
    assert(s.subrange(i + a.len(), i + a.len() + b.len()) =~= b);
}

/// Reading a string body over the escaped form of a name, up to its closing
/// quote, yields the name back.
proof fn lemma_string_body_of_esc(s: Seq<char>, i: int, name: Seq<char>)
    requires
        0 <= i,
        i + spec_esc(name).len() + 1 <= s.len(),
        s.subrange(i, i + spec_esc(name).len()) == spec_esc(name),
        s[i + spec_esc(name).len()] == '"',
    ensures
        spec_parse_string_body(s, i) == Some((name, i + spec_esc(name).len() + 1)),
    decreases name.len(),
{
    let e = spec_esc(name);
    if name.len() == 0 {
        assert(e =~= Seq::<char>::empty());
        assert(s[i] == '"');
    } else {
        let c = name[0];
        let rest = name.drop_first();
        assert(e == spec_esc_char(c) + spec_esc(rest));
        lemma_subrange_split(s, i, spec_esc_char(c), spec_esc(rest));
        if c == '"' || c == '\\' {
            assert(spec_esc_char(c) == seq!['\\', c]);
            assert(s.subrange(i, i + 2)[0] == '\\');
            assert(s.subrange(i, i + 2)[1] == c);
            assert(s[i] == '\\' && s[i + 1] == c);
            lemma_string_body_of_esc(s, i + 2, rest);
            assert(seq![c] + rest =~= name);
        } else if is_control(c) {
            let code = c as u32;
            let hi = (code / 16) as int;
            let lo = (code % 16) as int;
            assert(spec_esc_char(c) == seq!['\\', 'u', '0', '0', hex_char(hi), hex_char(lo)]);
            assert(s.subrange(i, i + 6)[0] == '\\');
            assert(s.subrange(i, i + 6)[1] == 'u');
            assert(s.subrange(i, i + 6)[2] == '0');
            assert(s.subrange(i, i + 6)[3] == '0');
            assert(s.subrange(i, i + 6)[4] == hex_char(hi));
            assert(s.subrange(i, i + 6)[5] == hex_char(lo));
            assert(s[i] == '\\' && s[i + 1] == 'u' && s[i + 2] == '0' && s[i + 3] == '0');
            lemma_hex_char_val(hi);
            lemma_hex_char_val(lo);
            assert(hex_val(s[i + 4]) * 16 + hex_val(s[i + 5]) == code);
            assert((((hex_val(s[i + 4]) * 16 + hex_val(s[i + 5])) as u8) as char) == c) by {
                let b = code as u8;
                assert(b as u32 == code);
                vstd::utf8::char_u32_cast(c, code);
            }
            lemma_string_body_of_esc(s, i + 6, rest);
            assert(seq![c] + rest =~= name);
        } else {
            assert(spec_esc_char(c) == seq![c]);
            assert(s.subrange(i, i + 1)[0] == c);
            assert(s[i] == c);
            lemma_string_body_of_esc(s, i + 1, rest);
            assert(seq![c] + rest =~= name);
        }
    }
}

/// Reading a number over the decimal notation of `v`, with no digit
/// following it, yields `v` back.
proof fn lemma_parse_u64_of_dec(s: Seq<char>, i: int, v: u64)
    requires
        0 <= i,
        i + spec_dec(v as nat).len() <= s.len(),
        s.subrange(i, i + spec_dec(v as nat).len()) == spec_dec(v as nat),
        i + spec_dec(v as nat).len() == s.len() || !is_digit(s[i + spec_dec(v as nat).len()]),
    ensures
        spec_parse_u64(s, i) == Some((v, i + spec_dec(v as nat).len())),
{
    let d = spec_dec(v as nat);
    lemma_dec_denotes(v as nat);
    assert forall|j: int| i <= j < i + d.len() implies is_digit(#[trigger] s[j]) by {
        assert(s[j] == d[j - i]);
    }
    lemma_digits_end_exact(s, i, i + d.len());
    assert(s.subrange(i, i + d.len())[0] == d[0]);
    assert(s[i] == d[0]);
    lemma_dec_no_leading_zero(v as nat);
}

/// Where `s` holds `lit` at `i` and `lit` does not open with whitespace,
/// the token parser consumes exactly `lit`.
proof fn lemma_parse_tok_here(s: Seq<char>, i: int, lit: Seq<char>)
    requires
        0 <= i,
        lit.len() > 0,
        i + lit.len() <= s.len(),
        s.subrange(i, i + lit.len()) == lit,
        !is_ws(lit[0]),
    ensures
        spec_parse_tok(s, i, lit) == Some(i + lit.len()),
{
    assert(s.subrange(i, i + lit.len())[0] == lit[0]);
    assert(s[i] == lit[0]);
    assert(spec_skip_ws(s, i) == i);
}

/// Where `s` holds the decimal notation of `v` at `i`, with no digit
/// following it, the number parser yields `v` back.
proof fn lemma_parse_num_here(s: Seq<char>, i: int, v: u64)
    requires
        0 <= i,
        i + spec_dec(v as nat).len() <= s.len(),
        s.subrange(i, i + spec_dec(v as nat).len()) == spec_dec(v as nat),
        i + spec_dec(v as nat).len() == s.len() || !is_digit(s[i + spec_dec(v as nat).len()]),
    ensures
        spec_parse_num(s, i) == Some((v, i + spec_dec(v as nat).len())),
{
    let d = spec_dec(v as nat);
    lemma_dec_denotes(v as nat);
    assert(s.subrange(i, i + d.len())[0] == d[0]);
    assert(is_digit(s[i]));
    assert(!is_ws(s[i]));
    assert(spec_skip_ws(s, i) == i);
    lemma_parse_u64_of_dec(s, i, v);
}

/// Reading one record over its own text yields the record back.
#[verifier::rlimit(100)]
#[verifier::spinoff_prover]
proof fn lemma_parse_record_of_text(s: Seq<char>, i: int, r: RecordModel)
    requires
        r.duration.wf(),
        0 <= i,
        i + spec_record_text(r).len() <= s.len(),
        s.subrange(i, i + spec_record_text(r).len()) == spec_record_text(r),
    ensures
        spec_parse_record(s, i) == Some((r, i + spec_record_text(r).len())),
{
    reveal_strlit("{");
    reveal_strlit("}");
    reveal_strlit(":");
    reveal_strlit(",");
    reveal_strlit("\"");
    reveal_strlit("\"name\"");
    reveal_strlit("\"duration\"");
    reveal_strlit("\"secs\"");
    reveal_strlit("\"nanos\"");
    let e = spec_esc(r.name);
    let d1 = spec_dec(r.duration.secs as nat);
    let d2 = spec_dec(r.duration.nanos as nat);
    let r18: Seq<char> = "}"@ + "}"@;
    let r17: Seq<char> = d2 + r18;
    let r16: Seq<char> = ":"@ + r17;
    let r15: Seq<char> = "\"nanos\""@ + r16;
    let r14: Seq<char> = ","@ + r15;
    let r13: Seq<char> = d1 + r14;
    let r12: Seq<char> = ":"@ + r13;
    let r11: Seq<char> = "\"secs\""@ + r12;
    let r10: Seq<char> = "{"@ + r11;
    let r9: Seq<char> = ":"@ + r10;
    let r8: Seq<char> = "\"duration\""@ + r9;
    let r7: Seq<char> = ","@ + r8;
    let r6: Seq<char> = "\""@ + r7;
    let r5: Seq<char> = e + r6;
    let r4: Seq<char> = "\""@ + r5;
    let r3: Seq<char> = ":"@ + r4;
    let r2: Seq<char> = "\"name\""@ + r3;
    let r1: Seq<char> = "{"@ + r2;
    assert(spec_record_text(r) =~= r1);
    assert(s.subrange(i, i + r1.len()) == r1);
    let o1 = i + 1;
    let o2 = o1 + 6;
    let o3 = o2 + 1;
    let o4 = o3 + 1;
    let o5 = o4 + e.len();
    let o6 = o5 + 1;
    let o7 = o6 + 1;
    let o8 = o7 + 10;
    let o9 = o8 + 1;
    let o10 = o9 + 1;
    let o11 = o10 + 6;
    let o12 = o11 + 1;
    let o13 = o12 + d1.len();
    let o14 = o13 + 1;
    let o15 = o14 + 7;
    let o16 = o15 + 1;
    let o17 = o16 + d2.len();
    let o18 = o17 + 1;
    let o19 = o18 + 1;
    lemma_subrange_split(s, i, "{"@, r2);
    lemma_subrange_split(s, o1, "\"name\""@, r3);
    lemma_subrange_split(s, o2, ":"@, r4);
    lemma_subrange_split(s, o3, "\""@, r5);
    lemma_subrange_split(s, o4, e, r6);
    lemma_subrange_split(s, o5, "\""@, r7);
    lemma_subrange_split(s, o6, ","@, r8);
    lemma_subrange_split(s, o7, "\"duration\""@, r9);
    lemma_subrange_split(s, o8, ":"@, r10);
    lemma_subrange_split(s, o9, "{"@, r11);
    lemma_subrange_split(s, o10, "\"secs\""@, r12);
    lemma_subrange_split(s, o11, ":"@, r13);
    lemma_subrange_split(s, o12, d1, r14);
    lemma_subrange_split(s, o13, ","@, r15);
    lemma_subrange_split(s, o14, "\"nanos\""@, r16);
    lemma_subrange_split(s, o15, ":"@, r17);
    lemma_subrange_split(s, o16, d2, r18);
    lemma_subrange_split(s, o17, "}"@, "}"@);
    lemma_parse_tok_here(s, i, "{"@);
    lemma_parse_tok_here(s, o1, "\"name\""@);
    lemma_parse_tok_here(s, o2, ":"@);
    lemma_parse_tok_here(s, o3, "\""@);
    assert(s.subrange(o5, o6)[0] == '"');
    assert(s[o5] == '"');
    lemma_string_body_of_esc(s, o4, r.name);
    lemma_parse_tok_here(s, o6, ","@);
    lemma_parse_tok_here(s, o7, "\"duration\""@);
    lemma_parse_tok_here(s, o8, ":"@);
    lemma_parse_tok_here(s, o9, "{"@);
    lemma_parse_tok_here(s, o10, "\"secs\""@);
    lemma_parse_tok_here(s, o11, ":"@);
    assert(s.subrange(o13, o14)[0] == ',');
    assert(s[o13] == ',');
    assert(!is_digit(','));
    lemma_parse_num_here(s, o12, r.duration.secs);
    lemma_parse_tok_here(s, o13, ","@);
    lemma_parse_tok_here(s, o14, "\"nanos\""@);
    lemma_parse_tok_here(s, o15, ":"@);
    assert(s.subrange(o17, o18)[0] == '}');
    assert(s[o17] == '}');
    assert(!is_digit('}'));
    lemma_parse_num_here(s, o16, r.duration.nanos as u64);
    lemma_parse_tok_here(s, o17, "}"@);
    lemma_parse_tok_here(s, o18, "}"@);
    assert((r.duration.nanos as u64) < NANOS_PER_SEC as u64);
    assert(o19 == i + spec_record_text(r).len());
    assert(r == RecordModel {
        name: r.name,
        duration: Dur { secs: r.duration.secs, nanos: r.duration.nanos },
    });
}

/// Reading the records over their own comma-separated text, up to a closing
/// bracket, yields them all back.
proof fn lemma_parse_records_of_body(s: Seq<char>, i: int, rs: Seq<RecordModel>, k: int)
    requires
        0 <= k < rs.len(),
        forall|p: int| 0 <= p < rs.len() ==> (#[trigger] rs[p]).duration.wf(),
        0 <= i,
        i + spec_body_from(rs, k).len() < s.len(),
        s.subrange(i, i + spec_body_from(rs, k).len()) == spec_body_from(rs, k),
        s[i + spec_body_from(rs, k).len()] == ']',
    ensures
        spec_parse_records(s, i) == Some(
            (rs.subrange(k, rs.len() as int), i + spec_body_from(rs, k).len() + 1),
        ),
    decreases rs.len() - k,
{
    let body = spec_body_from(rs, k);
    let rt = spec_record_text(rs[k]);
    if k == rs.len() - 1 {
        assert(body == rt);
        lemma_parse_record_of_text(s, i, rs[k]);
        let j = i + rt.len();
        assert(!is_ws(']'));
        assert(spec_skip_ws(s, j) == j);
        assert(rs.subrange(k, rs.len() as int) =~= seq![rs[k]]);
    } else {
        assert(body == rt + seq![','] + spec_body_from(rs, k + 1));
        lemma_subrange_split(s, i, rt + seq![','], spec_body_from(rs, k + 1));
        lemma_subrange_split(s, i, rt, seq![',']);
        lemma_parse_record_of_text(s, i, rs[k]);
        let j = i + rt.len();
        assert(s.subrange(j, j + 1)[0] == ',');
        assert(s[j] == ',');
        assert(!is_ws(','));
        assert(spec_skip_ws(s, j) == j);
        let j3 = j + 1;
        let next = spec_body_from(rs, k + 1);
        assert(s.subrange(j3, j3 + next.len()) == next);
        reveal_strlit("{");
        assert(next == spec_record_text(rs[k + 1]) || next == spec_record_text(rs[k + 1])
            + seq![','] + spec_body_from(rs, k + 2));
        assert(next.len() > 0);
        assert(spec_record_text(rs[k + 1])[0] == '{');
        assert(next[0] == '{');
        assert(s.subrange(j3, j3 + next.len())[0] == next[0]);
        assert(s[j3] == next[0]);
        assert(!is_ws(s[j3]));
        assert(spec_skip_ws(s, j3) == j3);
        lemma_parse_records_of_body(s, j3, rs, k + 1);
        assert(seq![rs[k]] + rs.subrange(k + 1, rs.len() as int) =~= rs.subrange(
            k,
            rs.len() as int,
        ));
    }
}

/// Round trip: parsing the persisted text of any record sequence yields
/// exactly that sequence back, whatever names and durations it holds.
pub proof fn lemma_round_trip(rs: Seq<RecordModel>)
    requires
        forall|p: int| 0 <= p < rs.len() ==> (#[trigger] rs[p]).duration.wf(),
    ensures
        spec_parse_top(spec_serialize(rs)) == Some(rs),
{
    let s = spec_serialize(rs);
    let body = spec_body_from(rs, 0);
    assert(s == seq!['['] + body + seq![']']);
    assert(s.subrange(0, s.len() as int) =~= s);
    lemma_subrange_split(s, 0, seq!['['] + body, seq![']']);
    lemma_subrange_split(s, 0, seq!['['], body);
    assert(s.subrange(0, 1)[0] == '[');
    assert(s[0] == '[');
    assert(!is_ws('['));
    assert(spec_skip_ws(s, 0) == 0);
    if rs.len() == 0 {
        assert(body =~= Seq::<char>::empty());
        assert(s.len() == 2);
        assert(s[1] == ']');
        assert(!is_ws(']'));
        assert(spec_skip_ws(s, 1) == 1);
        assert(spec_skip_ws(s, 2) == 2);
        assert(rs =~= Seq::<RecordModel>::empty());
    } else {
        assert(s.subrange(1, 1 + body.len() as int) == body);
        reveal_strlit("{");
        assert(body == spec_record_text(rs[0]) || body == spec_record_text(rs[0]) + seq![',']
            + spec_body_from(rs, 1));
        assert(body.len() > 0);
        assert(spec_record_text(rs[0])[0] == '{');
        assert(body[0] == '{');
        assert(s.subrange(1, 1 + body.len() as int)[0] == body[0]);
        assert(s[1] == body[0]);
        assert(!is_ws(s[1]));
        assert(spec_skip_ws(s, 1) == 1);
        assert(s[1] != ']');
        assert(s.subrange(1 + body.len() as int, s.len() as int)[0] == ']');
        assert(s[1 + body.len() as int] == ']');
        lemma_parse_records_of_body(s, 1, rs, 0);
        let k: int = 1 + body.len() as int + 1;
        assert(k == s.len());
        assert(spec_skip_ws(s, k) == k);
        assert(rs.subrange(0, rs.len() as int) =~= rs);
    }
}

} // verus!
