//! The canonical JSON document codec for the on-disk store.
//!
//! Every entity is persisted as one pretty-printed JSON document in a fixed
//! canonical shape: two-space indents, fields in declaration order,
//! timestamps in ISO-8601 UTC with nanosecond precision, identifiers in
//! hyphenated lowercase hex, status names lowercase.  The renderer writes
//! exactly that shape and the parser reads exactly that shape back; both
//! directions are specified by total functions over character sequences,
//! and parsing what was rendered is proved to yield the original value.

use vstd::prelude::*;
use crate::ident::{lemma_sp_uuid_round, read_uuid, sp_uuid, uuid_text, Uuid};
use crate::meta::Meta;
use crate::note::{Note, NoteV};
use crate::task::{status_text, Task, TaskStatus, TaskV};
use crate::text::{
    chars_to_string, digit_char, digit_seq, digit_val, is_hex_lower_digit, lemma_concat_assoc,
    lemma_digit_char_val, lemma_pow_values, lemma_sp_digits_round, push_digits, push_str_chars,
    read_digits, sp_digits, str_chars,
};
use crate::thread::{Thread, ThreadV};
use crate::time::{
    civil_day, civil_from_days, civil_month, civil_year, day_number, days_from_civil,
    lemma_civil_correct, lemma_day_number_bounds, month_len, valid_ymd, Timestamp,
    MAX_DAYS, MAX_SECS,
};

verus! {

// ---------------------------------------------------------------------------
// Escaped JSON strings
// ---------------------------------------------------------------------------

/// How one character is written inside a JSON string: quote and backslash
/// get a backslash escape, control characters a four-digit `\u` escape,
/// everything else stands as itself.
pub open spec fn esc_char(c: char) -> Seq<char> {
    if c == '"' {
        seq!['\\', '"']
    } else if c == '\\' {
        seq!['\\', '\\']
    } else if (c as u32) < 32 {
        seq!['\\', 'u', '0', '0', digit_char(c as u32 as int / 16), digit_char(c as u32 as int % 16)]
    } else {
        seq![c]
    }
}

/// A text written as JSON string content.
pub open spec fn esc_text(s: Seq<char>) -> Seq<char>
    decreases s.len(),
{
    if s.len() == 0 {
        Seq::empty()
    } else {
        esc_char(s[0]) + esc_text(s.skip(1))
    }
}

proof fn lemma_esc_push(s: Seq<char>, c: char)
    ensures
        esc_text(s.push(c)) == esc_text(s) + esc_char(c),
    decreases s.len(),
{
    if s.len() == 0 {
        assert(s.push(c)[0] == c);
        assert(s.push(c).skip(1) =~= Seq::<char>::empty());
        assert(esc_text(Seq::<char>::empty()) == Seq::<char>::empty());
        assert(esc_text(s.push(c)) =~= esc_char(c));
        assert(esc_text(s) + esc_char(c) =~= esc_char(c));
    } else {
        assert(s.push(c)[0] == s[0]);
        assert(s.push(c).skip(1) =~= s.skip(1).push(c));
        lemma_esc_push(s.skip(1), c);
        assert(esc_text(s.push(c)) =~= esc_text(s) + esc_char(c));
    }
}

/// Append `s` written as JSON string content.
#[verifier::loop_isolation(false)]
fn push_escaped(out: &mut Vec<char>, s: &str)
    ensures
        final(out)@ == old(out)@ + esc_text(s@),
{
    let v = str_chars(s);
    let mut j: usize = 0;
    while j < v.len()
        invariant
            j <= v.len(),
            v@ == s@,
            out@ == old(out)@ + esc_text(s@.take(j as int)),
        decreases v.len() - j,
    {
        let c = v[j];
        let u: u32 = c as u32;
        if c == '"' {
            out.push('\\');
            out.push('"');
        } else if c == '\\' {
            out.push('\\');
            out.push('\\');
        } else if u < 32 {
            out.push('\\');
            out.push('u');
            out.push('0');
            out.push('0');
            let hi = u / 16;
            let lo = u % 16;
            let hc: char = (48 + hi as u8) as char;
            let lc: char = if lo < 10 {
                (48 + lo as u8) as char
            } else {
                (87 + lo as u8) as char
            };
            assert(hc == digit_char(u as int / 16) && lc == digit_char(u as int % 16));
            out.push(hc);
            out.push(lc);
        } else {
            out.push(c);
        }
        proof {
            lemma_esc_push(s@.take(j as int), s@[j as int]);
            assert(s@.take(j + 1 as int) =~= s@.take(j as int).push(s@[j as int]));
            assert(out@ =~= old(out)@ + esc_text(s@.take(j + 1 as int)));
        }
        j += 1;
    }
    proof {
        assert(s@.take(v@.len() as int) =~= s@);
    }
}

/// The control character a `\u00xx` escape names.
pub open spec fn ctrl_char(h1: char, h2: char) -> char {
    (digit_val(h1) * 16 + digit_val(h2)) as char
}

/// Reading JSON string content up to and including its closing quote: the
/// decoded text and what follows the quote.  Only the escapes the renderer
/// writes are accepted; a stray control character or a malformed escape is
/// nothing.
#[verifier::opaque]
pub open spec fn sp_qstring_body(s: Seq<char>) -> Option<(Seq<char>, Seq<char>)>
    decreases s.len(),
{
    if s.len() == 0 {
        None
    } else if s[0] == '"' {
        Some((Seq::empty(), s.skip(1)))
    } else if s[0] == '\\' {
        if s.len() >= 2 && (s[1] == '"' || s[1] == '\\') {
            match sp_qstring_body(s.skip(2)) {
                None => None,
                Some((t, r)) => Some((seq![s[1]] + t, r)),
            }
        } else if s.len() >= 6 && s[1] == 'u' && s[2] == '0' && s[3] == '0' && is_hex_lower_digit(
            s[4],
        ) && is_hex_lower_digit(s[5]) && digit_val(s[4]) * 16 + digit_val(s[5]) < 32 {
            match sp_qstring_body(s.skip(6)) {
                None => None,
                Some((t, r)) => Some((seq![ctrl_char(s[4], s[5])] + t, r)),
            }
        } else {
            None
        }
    } else if (s[0] as u32) >= 32 {
        match sp_qstring_body(s.skip(1)) {
            None => None,
            Some((t, r)) => Some((seq![s[0]] + t, r)),
        }
    } else {
        None
    }
}

/// Escaped text followed by a closing quote parses back to the text,
/// whatever follows the quote.
pub proof fn lemma_sp_qstring_round(t: Seq<char>, rest: Seq<char>)
    ensures
        sp_qstring_body(esc_text(t) + seq!['"'] + rest) == Some((t, rest)),
    decreases t.len(),
{
    reveal(sp_qstring_body);
    let s = esc_text(t) + seq!['"'] + rest;
    if t.len() == 0 {
        assert(s =~= seq!['"'] + rest);
        assert(s[0] == '"');
        assert(s.skip(1) =~= rest);
    } else {
        let c = t[0];
        let tail = esc_text(t.skip(1)) + seq!['"'] + rest;
        assert(s =~= esc_char(c) + tail);
        lemma_sp_qstring_round(t.skip(1), rest);
        if c == '"' {
            assert(s[0] == '\\' && s[1] == '"');
            assert(s.skip(2) =~= tail);
            assert(seq![s[1]] + t.skip(1) =~= t);
        } else if c == '\\' {
            assert(s[0] == '\\' && s[1] == '\\');
            assert(s.skip(2) =~= tail);
            assert(seq![s[1]] + t.skip(1) =~= t);
        } else if (c as u32) < 32 {
            let u = c as u32 as int;
            vstd::arithmetic::div_mod::lemma_fundamental_div_mod(u, 16);
            vstd::arithmetic::div_mod::lemma_mod_bound(u, 16);
            assert(0 <= u / 16 < 2) by {
                crate::text::lemma_div_bound(u, 16, 2);
            }
            lemma_digit_char_val(u / 16);
            lemma_digit_char_val(u % 16);
            assert(s[0] == '\\' && s[1] == 'u' && s[2] == '0' && s[3] == '0');
            assert(s[4] == digit_char(u / 16) && s[5] == digit_char(u % 16));
            assert(digit_val(s[4]) * 16 + digit_val(s[5]) == u);
            assert(ctrl_char(s[4], s[5]) == (u as char));
            vstd::utf8::char_u32_cast(c, c as u32);
            assert((u as char) == c);
            assert(s.skip(6) =~= tail);
            assert(seq![c] + t.skip(1) =~= t);
        } else {
            assert(s[0] == c);
            assert(s.skip(1) =~= tail);
            assert(seq![c] + t.skip(1) =~= t);
        }
    }
}

/// Read JSON string content (after the opening quote) starting at `i`,
/// exactly as `sp_qstring_body` describes on the remaining input.
#[verifier::loop_isolation(false)]
fn read_qstring(v: &Vec<char>, i: usize) -> (r: Option<(Vec<char>, usize)>)
    requires
        i <= v.len(),
    ensures
        match r {
            Some((t, j)) => {
                &&& sp_qstring_body(v@.skip(i as int)) == Some((t@, v@.skip(j as int)))
                &&& i < j <= v.len()
            },
            None => sp_qstring_body(v@.skip(i as int)) is None,
        },
{
    proof {
        reveal(sp_qstring_body);
    }
    let mut acc: Vec<char> = Vec::new();
    let mut cur: usize = i;
    loop
        invariant
            i <= cur <= v.len(),
            sp_qstring_body(v@.skip(i as int)) == match sp_qstring_body(v@.skip(cur as int)) {
                None => None::<(Seq<char>, Seq<char>)>,
                Some((t, r)) => Some((acc@ + t, r)),
            },
        decreases v.len() - cur,
    {
        proof {
            reveal(sp_qstring_body);
        }
        if cur >= v.len() {
            return None;
        }
        let c = v[cur];
        proof {
            assert(v@.skip(cur as int)[0] == v@[cur as int]);
        }
        if c == '"' {
            proof {
                assert(v@.skip(cur as int).skip(1) =~= v@.skip(cur + 1 as int));
                assert(acc@ + Seq::<char>::empty() =~= acc@);
            }
            return Some((acc, cur + 1));
        } else if c == '\\' {
            if v.len() - cur < 2 {
                return None;
            }
            let e = v[cur + 1];
            proof {
                assert(v@.skip(cur as int)[1] == v@[cur + 1 as int]);
            }
            if e == '"' || e == '\\' {
                let ghost acc0 = acc@;
                let ghost rest2 = v@.skip(cur + 2 as int);
                proof {
                    assert(v@.skip(cur as int).skip(2) =~= rest2);
                }
                acc.push(e);
                proof {
                    match sp_qstring_body(rest2) {
                        Some(p) => {
                            assert(acc0.push(e) + p.0 =~= acc0 + (seq![e] + p.0));
                        },
                        None => {},
                    }
                }
                cur = cur + 2;
            } else if e == 'u' {
                if v.len() - cur < 6 {
                    return None;
                }
                let z1 = v[cur + 2];
                let z2 = v[cur + 3];
                let h1 = v[cur + 4];
                let h2 = v[cur + 5];
                proof {
                    assert(v@.skip(cur as int)[2] == v@[cur + 2 as int]);
                    assert(v@.skip(cur as int)[3] == v@[cur + 3 as int]);
                    assert(v@.skip(cur as int)[4] == v@[cur + 4 as int]);
                    assert(v@.skip(cur as int)[5] == v@[cur + 5 as int]);
                }
                if z1 != '0' || z2 != '0' {
                    return None;
                }
                let u1: u32 = h1 as u32;
                let u2: u32 = h2 as u32;
                let d1: u32 = if 48 <= u1 && u1 <= 57 {
                    u1 - 48
                } else if 97 <= u1 && u1 <= 102 {
                    u1 - 87
                } else {
                    return None;
                };
                let d2: u32 = if 48 <= u2 && u2 <= 57 {
                    u2 - 48
                } else if 97 <= u2 && u2 <= 102 {
                    u2 - 87
                } else {
                    return None;
                };
                let val: u32 = d1 * 16 + d2;
                if val >= 32 {
                    return None;
                }
                let ch: char = (val as u8) as char;
                assert(ch == ctrl_char(h1, h2));
                let ghost acc0 = acc@;
                let ghost rest6 = v@.skip(cur + 6 as int);
                proof {
                    assert(v@.skip(cur as int).skip(6) =~= rest6);
                }
                acc.push(ch);
                proof {
                    match sp_qstring_body(rest6) {
                        Some(p) => {
                            assert(acc0.push(ch) + p.0 =~= acc0 + (seq![ctrl_char(h1, h2)] + p.0));
                        },
                        None => {},
                    }
                }
                cur = cur + 6;
            } else {
                return None;
            }
        } else {
            let u: u32 = c as u32;
            if u < 32 {
                return None;
            }
            let ghost acc0 = acc@;
            let ghost rest1 = v@.skip(cur + 1 as int);
            proof {
                assert(v@.skip(cur as int).skip(1) =~= rest1);
            }
            acc.push(c);
            proof {
                match sp_qstring_body(rest1) {
                    Some(p) => {
                        assert(acc0.push(c) + p.0 =~= acc0 + (seq![c] + p.0));
                    },
                    None => {},
                }
            }
            cur = cur + 1;
        }
    }
}

// ---------------------------------------------------------------------------
// Fixed literals
// ---------------------------------------------------------------------------

/// Reading an expected literal: what follows it, or nothing if the input
/// does not start with it.
pub open spec fn sp_lit(s: Seq<char>, lit: Seq<char>) -> Option<Seq<char>> {
    if lit.len() <= s.len() && s.take(lit.len() as int) == lit {
        Some(s.skip(lit.len() as int))
    } else {
        None
    }
}

/// An input whose character at `k` differs from the literal's cannot start
/// with the literal.
pub proof fn lemma_lit_mismatch(s: Seq<char>, lit: Seq<char>, k: int)
    requires
        0 <= k < lit.len(),
        k < s.len() ==> s[k] != lit[k],
    ensures
        sp_lit(s, lit) is None,
{
    if lit.len() <= s.len() {
        assert(s.take(lit.len() as int)[k] == s[k]);
    }
}

/// A literal parses past itself, whatever follows it.
pub proof fn lemma_sp_lit_round(lit: Seq<char>, rest: Seq<char>)
    ensures
        sp_lit(lit + rest, lit) == Some(rest),
{
    assert((lit + rest).take(lit.len() as int) =~= lit);
    assert((lit + rest).skip(lit.len() as int) =~= rest);
}

/// Read the expected literal starting at `i`, exactly as `sp_lit` describes
/// on the remaining input.
#[verifier::loop_isolation(false)]
fn read_lit(v: &Vec<char>, i: usize, lit: &str) -> (r: Option<usize>)
    requires
        i <= v.len(),
    ensures
        match r {
            Some(j) => {
                &&& sp_lit(v@.skip(i as int), lit@) == Some(v@.skip(j as int))
                &&& j == i + lit@.len()
                &&& j <= v.len()
            },
            None => sp_lit(v@.skip(i as int), lit@) is None,
        },
{
    let n = lit.unicode_len();
    if v.len() - i < n {
        return None;
    }
    let mut k: usize = 0;
    while k < n
        invariant
            k <= n,
            forall|j: int| 0 <= j < k ==> v@[i + j] == lit@[j],
        decreases n - k,
    {
        if v[i + k] != lit.get_char(k) {
            proof {
                assert(v@.skip(i as int)[k as int] == v@[i + k]);
                assert(v@.skip(i as int).take(n as int) != lit@);
            }
            return None;
        }
        k += 1;
    }
    proof {
        assert(v@.skip(i as int).take(n as int) =~= lit@);
    }
    Some(i + n)
}

// ---------------------------------------------------------------------------
// Timestamps in ISO-8601
// ---------------------------------------------------------------------------

/// The canonical ISO-8601 UTC text of a timestamp: `YYYY-MM-DDThh:mm:ss`
/// followed by exactly nine fraction digits and `Z`.
pub open spec fn ts_text(t: Timestamp) -> Seq<char> {
    let days = t.secs as int / 86400;
    let sod = t.secs as int % 86400;
    digit_seq(10, civil_year(days), 4) + seq!['-'] + digit_seq(10, civil_month(days), 2)
        + seq!['-'] + digit_seq(10, civil_day(days), 2) + seq!['T'] + digit_seq(
        10,
        sod / 3600,
        2,
    ) + seq![':'] + digit_seq(10, (sod % 3600) / 60, 2) + seq![':'] + digit_seq(
        10,
        (sod % 3600) % 60,
        2,
    ) + seq!['.'] + digit_seq(10, t.nanos as int, 9) + seq!['Z']
}

/// Append the canonical ISO-8601 text of `t`.
fn push_ts(out: &mut Vec<char>, t: &Timestamp)
    requires
        t.wf(),
    ensures
        final(out)@ == old(out)@ + ts_text(*t),
{
    proof {
        lemma_pow_values();
        assert(MAX_SECS == MAX_DAYS * 86400);
        crate::text::lemma_div_bound(t.secs as int, 86400, MAX_DAYS as int);
        vstd::arithmetic::div_mod::lemma_mod_bound(t.secs as int, 86400);
    }
    let days: i64 = t.secs / 86400;
    let sod: i64 = t.secs % 86400;
    let (y, m, d) = civil_from_days(days);
    proof {
        crate::text::lemma_div_bound(sod as int, 3600, 24);
        vstd::arithmetic::div_mod::lemma_mod_bound(sod as int, 3600);
        crate::text::lemma_div_bound(sod as int % 3600, 60, 60);
        vstd::arithmetic::div_mod::lemma_mod_bound(sod as int % 3600, 60);
    }
    let hh: i64 = sod / 3600;
    let sod2: i64 = sod % 3600;
    let mi: i64 = sod2 / 60;
    let ss: i64 = sod2 % 60;
    push_digits(out, 10, y as u64, 4);
    out.push('-');
    push_digits(out, 10, m as u64, 2);
    out.push('-');
    push_digits(out, 10, d as u64, 2);
    out.push('T');
    push_digits(out, 10, hh as u64, 2);
    out.push(':');
    push_digits(out, 10, mi as u64, 2);
    out.push(':');
    push_digits(out, 10, ss as u64, 2);
    out.push('.');
    push_digits(out, 10, t.nanos as u64, 9);
    out.push('Z');
    proof {
        assert(out@ =~= old(out)@ + ts_text(*t));
    }
}

/// Reading a canonical timestamp text: the moment it denotes, provided the
/// date is valid and the time fields are in range, and what follows.
#[verifier::opaque]
pub open spec fn sp_ts(s: Seq<char>) -> Option<(Timestamp, Seq<char>)> {
    match sp_digits(s, 10, 4) {
        None => None,
        Some((y, r1)) => {
            if r1.len() >= 1 && r1[0] == '-' {
                match sp_digits(r1.skip(1), 10, 2) {
                    None => None,
                    Some((m, r2)) => {
                        if r2.len() >= 1 && r2[0] == '-' {
                            match sp_digits(r2.skip(1), 10, 2) {
                                None => None,
                                Some((d, r3)) => {
                                    if r3.len() >= 1 && r3[0] == 'T' && valid_ymd(y, m, d) {
                                        sp_ts_time(y, m, d, r3.skip(1))
                                    } else {
                                        None
                                    }
                                },
                            }
                        } else {
                            None
                        }
                    },
                }
            } else {
                None
            }
        },
    }
}

/// The time-of-day half of a timestamp text.
#[verifier::opaque]
pub open spec fn sp_ts_time(y: int, m: int, d: int, r3: Seq<char>) -> Option<
    (Timestamp, Seq<char>),
> {
    match sp_digits(r3, 10, 2) {
        None => None,
        Some((hh, r4)) => {
            if r4.len() >= 1 && r4[0] == ':' && hh < 24 {
                match sp_digits(r4.skip(1), 10, 2) {
                    None => None,
                    Some((mi, r5)) => {
                        if r5.len() >= 1 && r5[0] == ':' && mi < 60 {
                            match sp_digits(r5.skip(1), 10, 2) {
                                None => None,
                                Some((ss, r6)) => {
                                    if r6.len() >= 1 && r6[0] == '.' && ss < 60 {
                                        match sp_digits(r6.skip(1), 10, 9) {
                                            None => None,
                                            Some((ns, r7)) => {
                                                if r7.len() >= 1 && r7[0] == 'Z' {
                                                    Some(
                                                        (
                                                            Timestamp {
                                                                secs: (day_number(y, m, d) * 86400
                                                                    + hh * 3600 + mi * 60
                                                                    + ss) as i64,
                                                                nanos: ns as u32,
                                                            },
                                                            r7.skip(1),
                                                        ),
                                                    )
                                                } else {
                                                    None
                                                }
                                            },
                                        }
                                    } else {
                                        None
                                    }
                                },
                            }
                        } else {
                            None
                        }
                    },
                }
            } else {
                None
            }
        },
    }
}

/// A timestamp the parser accepts is representable.
pub proof fn lemma_sp_ts_wf(s: Seq<char>)
    ensures
        sp_ts(s) matches Some(p) ==> p.0.wf(),
{
    reveal(sp_ts);
    lemma_pow_values();
    if sp_ts(s) matches Some(p) {
        match sp_digits(s, 10, 4) {
            None => {},
            Some((y, r1)) => {
                match sp_digits(r1.skip(1), 10, 2) {
                    None => {},
                    Some((m, r2)) => {
                        match sp_digits(r2.skip(1), 10, 2) {
                            None => {},
                            Some((d, r3)) => {
                                if r3.len() >= 1 && r3[0] == 'T' && valid_ymd(y, m, d) {
                                    lemma_sp_ts_time_wf(y, m, d, r3.skip(1));
                                }
                            },
                        }
                    },
                }
            },
        }
    }
}

proof fn lemma_sp_ts_time_wf(y: int, m: int, d: int, r3: Seq<char>)
    requires
        valid_ymd(y, m, d),
    ensures
        sp_ts_time(y, m, d, r3) matches Some(p) ==> p.0.wf(),
{
    reveal(sp_ts_time);
    lemma_pow_values();
    if sp_ts_time(y, m, d, r3) matches Some(p) {
        lemma_day_number_bounds(y, m, d);
        match sp_digits(r3, 10, 2) {
            None => {},
            Some((hh, r4)) => {
                crate::text::lemma_sp_digits_bounds(r3, 10, 2);
                match sp_digits(r4.skip(1), 10, 2) {
                    None => {},
                    Some((mi, r5)) => {
                        crate::text::lemma_sp_digits_bounds(r4.skip(1), 10, 2);
                        match sp_digits(r5.skip(1), 10, 2) {
                            None => {},
                            Some((ss, r6)) => {
                                crate::text::lemma_sp_digits_bounds(r5.skip(1), 10, 2);
                                match sp_digits(r6.skip(1), 10, 9) {
                                    None => {},
                                    Some((ns, r7)) => {
                                        crate::text::lemma_sp_digits_bounds(r6.skip(1), 10, 9);
                                    },
                                }
                                assert(day_number(y, m, d) * 86400 + hh * 3600 + mi * 60 + ss
                                    < MAX_SECS) by (nonlinear_arith)
                                    requires
                                        day_number(y, m, d) <= MAX_DAYS - 1,
                                        MAX_DAYS == 2932897,
                                        MAX_SECS == 253402300800,
                                        0 <= hh < 24,
                                        0 <= mi < 60,
                                        0 <= ss < 60,
                                ;
                                assert(day_number(y, m, d) * 86400 >= 0) by (nonlinear_arith)
                                    requires
                                        day_number(y, m, d) >= 0,
                                ;
                            },
                        }
                    },
                }
            },
        }
    }
}

proof fn lemma_sp_ts_time_round(y: int, m: int, d: int, hh: int, mi: int, ss: int, ns: int, secs: int, rest: Seq<char>)
    requires
        valid_ymd(y, m, d),
        0 <= hh < 24,
        0 <= mi < 60,
        0 <= ss < 60,
        0 <= ns < 1000000000,
        secs == day_number(y, m, d) * 86400 + hh * 3600 + mi * 60 + ss,
        0 <= secs < MAX_SECS,
    ensures
        sp_ts_time(
            y,
            m,
            d,
            digit_seq(10, hh, 2) + seq![':'] + digit_seq(10, mi, 2) + seq![':'] + digit_seq(
                10,
                ss,
                2,
            ) + seq!['.'] + digit_seq(10, ns, 9) + seq!['Z'] + rest,
        ) == Some((Timestamp { secs: secs as i64, nanos: ns as u32 }, rest)),
{
    reveal(sp_ts_time);
    lemma_pow_values();
    let t13 = seq!['Z'] + rest;
    let t12 = digit_seq(10, ns, 9) + t13;
    let t11 = seq!['.'] + t12;
    let t10 = digit_seq(10, ss, 2) + t11;
    let t9 = seq![':'] + t10;
    let t8 = digit_seq(10, mi, 2) + t9;
    let t7 = seq![':'] + t8;
    let t6 = digit_seq(10, hh, 2) + t7;
    assert(digit_seq(10, hh, 2) + seq![':'] + digit_seq(10, mi, 2) + seq![':'] + digit_seq(
        10,
        ss,
        2,
    ) + seq!['.'] + digit_seq(10, ns, 9) + seq!['Z'] + rest =~= t6);
    lemma_sp_digits_round(10, hh, 2, t7);
    assert(t7.skip(1) =~= t8);
    lemma_sp_digits_round(10, mi, 2, t9);
    assert(t9.skip(1) =~= t10);
    lemma_sp_digits_round(10, ss, 2, t11);
    assert(t11.skip(1) =~= t12);
    lemma_sp_digits_round(10, ns, 9, t13);
    assert(t13.skip(1) =~= rest);
}

/// The canonical text of a representable timestamp parses back to it,
/// whatever text follows.
pub proof fn lemma_sp_ts_round(t: Timestamp, rest: Seq<char>)
    requires
        t.wf(),
    ensures
        sp_ts(ts_text(t) + rest) == Some((t, rest)),
{
    reveal(sp_ts);
    lemma_pow_values();
    assert(MAX_SECS == MAX_DAYS * 86400);
    let secs = t.secs as int;
    let days = secs / 86400;
    let sod = secs % 86400;
    crate::text::lemma_div_bound(secs, 86400, MAX_DAYS as int);
    vstd::arithmetic::div_mod::lemma_mod_bound(secs, 86400);
    vstd::arithmetic::div_mod::lemma_fundamental_div_mod(secs, 86400);
    lemma_civil_correct(days);
    let y = civil_year(days);
    let m = civil_month(days);
    let d = civil_day(days);
    let hh = sod / 3600;
    let sod2 = sod % 3600;
    let mi = sod2 / 60;
    let ss = sod2 % 60;
    crate::text::lemma_div_bound(sod, 3600, 24);
    vstd::arithmetic::div_mod::lemma_mod_bound(sod, 3600);
    vstd::arithmetic::div_mod::lemma_fundamental_div_mod(sod, 3600);
    crate::text::lemma_div_bound(sod2, 60, 60);
    vstd::arithmetic::div_mod::lemma_mod_bound(sod2, 60);
    vstd::arithmetic::div_mod::lemma_fundamental_div_mod(sod2, 60);
    let ns = t.nanos as int;
    let t6 = digit_seq(10, hh, 2) + seq![':'] + digit_seq(10, mi, 2) + seq![':'] + digit_seq(
        10,
        ss,
        2,
    ) + seq!['.'] + digit_seq(10, ns, 9) + seq!['Z'] + rest;
    let t5 = seq!['T'] + t6;
    let t4 = digit_seq(10, d, 2) + t5;
    let t3 = seq!['-'] + t4;
    let t2 = digit_seq(10, m, 2) + t3;
    let t1 = seq!['-'] + t2;
    let s0 = digit_seq(10, y, 4) + t1;
    assert(ts_text(t) + rest =~= s0);
    lemma_sp_digits_round(10, y, 4, t1);
    assert(t1.skip(1) =~= t2);
    lemma_sp_digits_round(10, m, 2, t3);
    assert(t3.skip(1) =~= t4);
    lemma_sp_digits_round(10, d, 2, t5);
    assert(t5.skip(1) =~= t6);
    assert(day_number(y, m, d) == days);
    assert(day_number(y, m, d) * 86400 + hh * 3600 + mi * 60 + ss == secs);
    lemma_sp_ts_time_round(y, m, d, hh, mi, ss, ns, secs, rest);
    assert(sp_ts(s0) == Some((t, rest)));
}

/// Read a canonical timestamp text starting at `i`, exactly as `sp_ts`
/// describes on the remaining input.
fn read_ts(v: &Vec<char>, i: usize) -> (r: Option<(Timestamp, usize)>)
    requires
        i <= v.len(),
    ensures
        match r {
            Some((t, j)) => {
                &&& sp_ts(v@.skip(i as int)) == Some((t, v@.skip(j as int)))
                &&& t.wf()
                &&& i < j <= v.len()
            },
            None => sp_ts(v@.skip(i as int)) is None,
        },
{
    proof {
        reveal(sp_ts);
        lemma_pow_values();
    }
    let (y, p1) = match read_digits(v, i, 10, 4) {
        None => {
            return None;
        },
        Some(x) => x,
    };
    if p1 >= v.len() || v[p1] != '-' {
        proof {
            assert(v@.skip(p1 as int).len() >= 1 ==> v@.skip(p1 as int)[0] == v@[p1 as int]);
        }
        return None;
    }
    proof {
        assert(v@.skip(p1 as int)[0] == v@[p1 as int]);
        assert(v@.skip(p1 as int).skip(1) =~= v@.skip(p1 + 1 as int));
    }
    let (m, p2) = match read_digits(v, p1 + 1, 10, 2) {
        None => {
            return None;
        },
        Some(x) => x,
    };
    if p2 >= v.len() || v[p2] != '-' {
        proof {
            assert(v@.skip(p2 as int).len() >= 1 ==> v@.skip(p2 as int)[0] == v@[p2 as int]);
        }
        return None;
    }
    proof {
        assert(v@.skip(p2 as int)[0] == v@[p2 as int]);
        assert(v@.skip(p2 as int).skip(1) =~= v@.skip(p2 + 1 as int));
    }
    let (d, p3) = match read_digits(v, p2 + 1, 10, 2) {
        None => {
            return None;
        },
        Some(x) => x,
    };
    if p3 >= v.len() || v[p3] != 'T' {
        proof {
            assert(v@.skip(p3 as int).len() >= 1 ==> v@.skip(p3 as int)[0] == v@[p3 as int]);
        }
        return None;
    }
    proof {
        assert(v@.skip(p3 as int)[0] == v@[p3 as int]);
        assert(v@.skip(p3 as int).skip(1) =~= v@.skip(p3 + 1 as int));
    }
    let yy = y as i64;
    let mm = m as i64;
    let dd = d as i64;
    if !(1970 <= yy && yy <= 9999 && 1 <= mm && mm <= 12 && 1 <= dd && dd <= month_len(yy, mm)) {
        return None;
    }
    read_ts_time(v, p3 + 1, yy, mm, dd)
}

/// Read the time-of-day half of a timestamp text starting at `i`, exactly
/// as `sp_ts_time` describes on the remaining input.
fn read_ts_time(v: &Vec<char>, i: usize, yy: i64, mm: i64, dd: i64) -> (r: Option<
    (Timestamp, usize),
>)
    requires
        i <= v.len(),
        valid_ymd(yy as int, mm as int, dd as int),
    ensures
        match r {
            Some((t, j)) => {
                &&& sp_ts_time(yy as int, mm as int, dd as int, v@.skip(i as int)) == Some(
                    (t, v@.skip(j as int)),
                )
                &&& t.wf()
                &&& i < j <= v.len()
            },
            None => sp_ts_time(yy as int, mm as int, dd as int, v@.skip(i as int)) is None,
        },
{
    proof {
        reveal(sp_ts_time);
        lemma_pow_values();
        lemma_sp_ts_time_wf(yy as int, mm as int, dd as int, v@.skip(i as int));
    }
    let (hh, p4) = match read_digits(v, i, 10, 2) {
        None => {
            return None;
        },
        Some(x) => x,
    };
    if p4 >= v.len() || v[p4] != ':' || hh >= 24 {
        proof {
            assert(v@.skip(p4 as int).len() >= 1 ==> v@.skip(p4 as int)[0] == v@[p4 as int]);
        }
        return None;
    }
    proof {
        assert(v@.skip(p4 as int)[0] == v@[p4 as int]);
        assert(v@.skip(p4 as int).skip(1) =~= v@.skip(p4 + 1 as int));
    }
    let (mi, p5) = match read_digits(v, p4 + 1, 10, 2) {
        None => {
            return None;
        },
        Some(x) => x,
    };
    if p5 >= v.len() || v[p5] != ':' || mi >= 60 {
        proof {
            assert(v@.skip(p5 as int).len() >= 1 ==> v@.skip(p5 as int)[0] == v@[p5 as int]);
        }
        return None;
    }
    proof {
        assert(v@.skip(p5 as int)[0] == v@[p5 as int]);
        assert(v@.skip(p5 as int).skip(1) =~= v@.skip(p5 + 1 as int));
    }
    let (ss, p6) = match read_digits(v, p5 + 1, 10, 2) {
        None => {
            return None;
        },
        Some(x) => x,
    };
    if p6 >= v.len() || v[p6] != '.' || ss >= 60 {
        proof {
            assert(v@.skip(p6 as int).len() >= 1 ==> v@.skip(p6 as int)[0] == v@[p6 as int]);
        }
        return None;
    }
    proof {
        assert(v@.skip(p6 as int)[0] == v@[p6 as int]);
        assert(v@.skip(p6 as int).skip(1) =~= v@.skip(p6 + 1 as int));
    }
    let (ns, p7) = match read_digits(v, p6 + 1, 10, 9) {
        None => {
            return None;
        },
        Some(x) => x,
    };
    if p7 >= v.len() || v[p7] != 'Z' {
        proof {
            assert(v@.skip(p7 as int).len() >= 1 ==> v@.skip(p7 as int)[0] == v@[p7 as int]);
        }
        return None;
    }
    proof {
        assert(v@.skip(p7 as int)[0] == v@[p7 as int]);
        assert(v@.skip(p7 as int).skip(1) =~= v@.skip(p7 + 1 as int));
        lemma_day_number_bounds(yy as int, mm as int, dd as int);
        assert(day_number(yy as int, mm as int, dd as int) * 86400 <= (MAX_DAYS - 1) * 86400)
            by (nonlinear_arith)
            requires
                day_number(yy as int, mm as int, dd as int) <= MAX_DAYS - 1,
        ;
        assert(day_number(yy as int, mm as int, dd as int) * 86400 >= 0) by (nonlinear_arith)
            requires
                day_number(yy as int, mm as int, dd as int) >= 0,
        ;
    }
    let days = days_from_civil(yy, mm, dd);
    let secs: i64 = days * 86400 + (hh as i64) * 3600 + (mi as i64) * 60 + (ss as i64);
    Some((Timestamp { secs, nanos: ns as u32 }, p7 + 1))
}

// ---------------------------------------------------------------------------
// Metadata objects
// ---------------------------------------------------------------------------

/// The canonical JSON object of a metadata record, indented for its place
/// inside an entity document.
pub open spec fn meta_text(m: Meta) -> Seq<char> {
    "{\n    \"created_on\": \""@ + ts_text(m.created_on) + "\",\n    \"last_modified\": \""@
        + ts_text(m.last_modified) + "\",\n    \"uuid\": \""@ + uuid_text(m.uuid) + "\"\n  }"@
}

/// Reading a canonical metadata object: both moments, the identifier, and
/// the check that nothing was modified before it was created.
#[verifier::opaque]
pub open spec fn sp_meta(s: Seq<char>) -> Option<(Meta, Seq<char>)> {
    match sp_lit(s, "{\n    \"created_on\": \""@) {
        None => None,
        Some(r1) => match sp_ts(r1) {
            None => None,
            Some((created, r2)) => match sp_lit(r2, "\",\n    \"last_modified\": \""@) {
                None => None,
                Some(r3) => match sp_ts(r3) {
                    None => None,
                    Some((modified, r4)) => match sp_lit(r4, "\",\n    \"uuid\": \""@) {
                        None => None,
                        Some(r5) => match sp_uuid(r5) {
                            None => None,
                            Some((u, r6)) => match sp_lit(r6, "\"\n  }"@) {
                                None => None,
                                Some(r7) => {
                                    if created.le_spec(modified) {
                                        Some(
                                            (
                                                Meta {
                                                    created_on: created,
                                                    last_modified: modified,
                                                    uuid: u,
                                                },
                                                r7,
                                            ),
                                        )
                                    } else {
                                        None
                                    }
                                },
                            },
                        },
                    },
                },
            },
        },
    }
}

/// A metadata object the parser accepts is well-formed.
pub proof fn lemma_sp_meta_wf(s: Seq<char>)
    ensures
        sp_meta(s) matches Some(p) ==> p.0.wf(),
{
    reveal(sp_meta);
    match sp_lit(s, "{\n    \"created_on\": \""@) {
        None => {},
        Some(r1) => {
            lemma_sp_ts_wf(r1);
            match sp_ts(r1) {
                None => {},
                Some((created, r2)) => match sp_lit(r2, "\",\n    \"last_modified\": \""@) {
                    None => {},
                    Some(r3) => {
                        lemma_sp_ts_wf(r3);
                    },
                },
            }
        },
    }
}

/// The canonical text of a well-formed metadata record parses back to it,
/// whatever text follows.
pub proof fn lemma_sp_meta_round(m: Meta, rest: Seq<char>)
    requires
        m.wf(),
    ensures
        sp_meta(meta_text(m) + rest) == Some((m, rest)),
{
    reveal(sp_meta);
    let l1 = "{\n    \"created_on\": \""@;
    let l2 = "\",\n    \"last_modified\": \""@;
    let l3 = "\",\n    \"uuid\": \""@;
    let l4 = "\"\n  }"@;
    let t6 = l4 + rest;
    let t5 = uuid_text(m.uuid) + t6;
    let t4 = l3 + t5;
    let t3 = ts_text(m.last_modified) + t4;
    let t2 = l2 + t3;
    let t1 = ts_text(m.created_on) + t2;
    let s0 = l1 + t1;
    assert(meta_text(m) + rest =~= s0);
    lemma_sp_lit_round(l1, t1);
    lemma_sp_ts_round(m.created_on, t2);
    lemma_sp_lit_round(l2, t3);
    lemma_sp_ts_round(m.last_modified, t4);
    lemma_sp_lit_round(l3, t5);
    lemma_sp_uuid_round(m.uuid, t6);
    lemma_sp_lit_round(l4, rest);
}

/// Append the canonical JSON object of `m`.
fn push_meta(out: &mut Vec<char>, m: &Meta)
    requires
        m.wf(),
    ensures
        final(out)@ == old(out)@ + meta_text(*m),
{
    push_str_chars(out, "{\n    \"created_on\": \"");
    push_ts(out, &m.created_on);
    push_str_chars(out, "\",\n    \"last_modified\": \"");
    push_ts(out, &m.last_modified);
    push_str_chars(out, "\",\n    \"uuid\": \"");
    m.uuid.push_text(out);
    push_str_chars(out, "\"\n  }");
    proof {
        assert(out@ =~= old(out)@ + meta_text(*m));
    }
}

/// Read a canonical metadata object starting at `i`, exactly as `sp_meta`
/// describes on the remaining input.
fn read_meta(v: &Vec<char>, i: usize) -> (r: Option<(Meta, usize)>)
    requires
        i <= v.len(),
    ensures
        match r {
            Some((m, j)) => {
                &&& sp_meta(v@.skip(i as int)) == Some((m, v@.skip(j as int)))
                &&& m.wf()
                &&& i <= j <= v.len()
            },
            None => sp_meta(v@.skip(i as int)) is None,
        },
{
    proof {
        reveal(sp_meta);
        lemma_sp_meta_wf(v@.skip(i as int));
    }
    let p1 = match read_lit(v, i, "{\n    \"created_on\": \"") {
        None => {
            return None;
        },
        Some(x) => x,
    };
    let (created, p2) = match read_ts(v, p1) {
        None => {
            return None;
        },
        Some(x) => x,
    };
    let p3 = match read_lit(v, p2, "\",\n    \"last_modified\": \"") {
        None => {
            return None;
        },
        Some(x) => x,
    };
    let (modified, p4) = match read_ts(v, p3) {
        None => {
            return None;
        },
        Some(x) => x,
    };
    let p5 = match read_lit(v, p4, "\",\n    \"uuid\": \"") {
        None => {
            return None;
        },
        Some(x) => x,
    };
    let (u, p6) = match read_uuid(v, p5) {
        None => {
            return None;
        },
        Some(x) => x,
    };
    let p7 = match read_lit(v, p6, "\"\n  }") {
        None => {
            return None;
        },
        Some(x) => x,
    };
    if created.le(&modified) {
        Some((Meta { created_on: created, last_modified: modified, uuid: u }, p7))
    } else {
        None
    }
}

// ---------------------------------------------------------------------------
// Status names
// ---------------------------------------------------------------------------

/// Reading a status name: one of the four canonical lowercase words.
pub open spec fn sp_status(s: Seq<char>) -> Option<(TaskStatus, Seq<char>)> {
    match sp_lit(s, "open"@) {
        Some(r) => Some((TaskStatus::Open, r)),
        None => match sp_lit(s, "waiting"@) {
            Some(r) => Some((TaskStatus::Waiting, r)),
            None => match sp_lit(s, "closed"@) {
                Some(r) => Some((TaskStatus::Closed, r)),
                None => match sp_lit(s, "deactivated"@) {
                    Some(r) => Some((TaskStatus::Deactivated, r)),
                    None => None,
                },
            },
        },
    }
}

/// The canonical name of a status parses back to it, whatever follows.
pub proof fn lemma_sp_status_round(st: TaskStatus, rest: Seq<char>)
    ensures
        sp_status(status_text(st) + rest) == Some((st, rest)),
{
    reveal_strlit("open");
    reveal_strlit("waiting");
    reveal_strlit("closed");
    reveal_strlit("deactivated");
    let s = status_text(st) + rest;
    match st {
        TaskStatus::Open => {
            lemma_sp_lit_round("open"@, rest);
        },
        TaskStatus::Waiting => {
            assert(s[0] == 'w');
            lemma_lit_mismatch(s, "open"@, 0);
            lemma_sp_lit_round("waiting"@, rest);
        },
        TaskStatus::Closed => {
            assert(s[0] == 'c');
            lemma_lit_mismatch(s, "open"@, 0);
            lemma_lit_mismatch(s, "waiting"@, 0);
            lemma_sp_lit_round("closed"@, rest);
        },
        TaskStatus::Deactivated => {
            assert(s[0] == 'd');
            lemma_lit_mismatch(s, "open"@, 0);
            lemma_lit_mismatch(s, "waiting"@, 0);
            lemma_lit_mismatch(s, "closed"@, 0);
            lemma_sp_lit_round("deactivated"@, rest);
        },
    }
}

/// Read a status name starting at `i`, exactly as `sp_status` describes on
/// the remaining input.
fn read_status(v: &Vec<char>, i: usize) -> (r: Option<(TaskStatus, usize)>)
    requires
        i <= v.len(),
    ensures
        match r {
            Some((st, j)) => {
                &&& sp_status(v@.skip(i as int)) == Some((st, v@.skip(j as int)))
                &&& i <= j <= v.len()
            },
            None => sp_status(v@.skip(i as int)) is None,
        },
{
    if let Some(j) = read_lit(v, i, "open") {
        return Some((TaskStatus::Open, j));
    }
    if let Some(j) = read_lit(v, i, "waiting") {
        return Some((TaskStatus::Waiting, j));
    }
    if let Some(j) = read_lit(v, i, "closed") {
        return Some((TaskStatus::Closed, j));
    }
    if let Some(j) = read_lit(v, i, "deactivated") {
        return Some((TaskStatus::Deactivated, j));
    }
    None
}

// ---------------------------------------------------------------------------
// Reference lists
// ---------------------------------------------------------------------------

/// The canonical JSON array of a reference list: `[]` when empty, otherwise
/// one quoted identifier per line.
pub open spec fn uuid_list_text(us: Seq<Uuid>) -> Seq<char> {
    if us.len() == 0 {
        "[]"@
    } else {
        "[\n    \""@ + uuid_text(us[0]) + seq!['"'] + uuid_list_tail(us.skip(1)) + "\n  ]"@
    }
}

/// The second and later elements of a reference list.
pub open spec fn uuid_list_tail(us: Seq<Uuid>) -> Seq<char>
    decreases us.len(),
{
    if us.len() == 0 {
        Seq::empty()
    } else {
        ",\n    \""@ + uuid_text(us[0]) + seq!['"'] + uuid_list_tail(us.skip(1))
    }
}

/// Reading the rest of a reference list after its first element: either a
/// comma and another quoted identifier, or the closing bracket.
pub open spec fn sp_list_rest(s: Seq<char>) -> Option<(Seq<Uuid>, Seq<char>)>
    decreases s.len()
    via sp_list_rest_dec
{
    match sp_lit(s, ",\n    \""@) {
        Some(r1) => match sp_uuid(r1) {
            None => None,
            Some((u, r2)) => {
                if r2.len() >= 1 && r2[0] == '"' {
                    match sp_list_rest(r2.skip(1)) {
                        None => None,
                        Some((us, r)) => Some((seq![u] + us, r)),
                    }
                } else {
                    None
                }
            },
        },
        None => match sp_lit(s, "\n  ]"@) {
            Some(r) => Some((Seq::empty(), r)),
            None => None,
        },
    }
}

#[via_fn]
proof fn sp_list_rest_dec(s: Seq<char>) {
    match sp_lit(s, ",\n    \""@) {
        Some(r1) => {
            crate::ident::lemma_sp_uuid_len(r1);
        },
        None => {},
    }
}

/// Reading a whole reference list.
pub open spec fn sp_uuid_list(s: Seq<char>) -> Option<(Seq<Uuid>, Seq<char>)> {
    match sp_lit(s, "[]"@) {
        Some(r) => Some((Seq::empty(), r)),
        None => match sp_lit(s, "[\n    \""@) {
            None => None,
            Some(r1) => match sp_uuid(r1) {
                None => None,
                Some((u, r2)) => {
                    if r2.len() >= 1 && r2[0] == '"' {
                        match sp_list_rest(r2.skip(1)) {
                            None => None,
                            Some((us, r)) => Some((seq![u] + us, r)),
                        }
                    } else {
                        None
                    }
                },
            },
        },
    }
}

#[verifier::rlimit(100)]
proof fn lemma_sp_list_rest_round(us: Seq<Uuid>, rest: Seq<char>)
    ensures
        sp_list_rest(uuid_list_tail(us) + "\n  ]"@ + rest) == Some((us, rest)),
    decreases us.len(),
{
    reveal_strlit(",\n    \"");
    reveal_strlit("\n  ]");
    let s = uuid_list_tail(us) + "\n  ]"@ + rest;
    if us.len() == 0 {
        assert(s =~= "\n  ]"@ + rest);
        assert(s[0] == '\n');
        lemma_lit_mismatch(s, ",\n    \""@, 0);
        lemma_sp_lit_round("\n  ]"@, rest);
    } else {
        let ll = ",\n    \""@;
        let uu = uuid_text(us[0]);
        let qq = seq!['"'];
        let tt = uuid_list_tail(us.skip(1));
        let ee = "\n  ]"@;
        let tail2 = (tt + ee) + rest;
        let t2 = qq + tail2;
        let t1 = uu + t2;
        assert(uuid_list_tail(us) == ((ll + uu) + qq) + tt);
        lemma_concat_assoc(((ll + uu) + qq) + tt, ee, rest);
        lemma_concat_assoc((ll + uu) + qq, tt, ee + rest);
        lemma_concat_assoc(tt, ee, rest);
        lemma_concat_assoc(ll + uu, qq, tail2);
        lemma_concat_assoc(ll, uu, t2);
        assert(s == ll + t1);
        lemma_sp_lit_round(ll, t1);
        lemma_sp_uuid_round(us[0], t2);
        assert(t2[0] == '"');
        assert(t2.skip(1) =~= tail2);
        lemma_sp_list_rest_round(us.skip(1), rest);
        assert(seq![us[0]] + us.skip(1) =~= us);
    }
}

#[verifier::rlimit(100)]
proof fn lemma_sp_uuid_list_round_nonempty(us: Seq<Uuid>, rest: Seq<char>)
    requires
        us.len() > 0,
    ensures
        sp_uuid_list(uuid_list_text(us) + rest) == Some((us, rest)),
{
    reveal_strlit("[]");
    reveal_strlit("[\n    \"");
    let ll = "[\n    \""@;
    let uu = uuid_text(us[0]);
    let qq = seq!['"'];
    let tt = uuid_list_tail(us.skip(1));
    let ee = "\n  ]"@;
    let s = uuid_list_text(us) + rest;
    let tail2 = (tt + ee) + rest;
    let t2 = qq + tail2;
    let t1 = uu + t2;
    assert(uuid_list_text(us) == (((ll + uu) + qq) + tt) + ee);
    lemma_concat_assoc((((ll + uu) + qq) + tt), ee, rest);
    lemma_concat_assoc(((ll + uu) + qq), tt, ee + rest);
    lemma_concat_assoc(tt, ee, rest);
    lemma_concat_assoc((ll + uu), qq, tail2);
    lemma_concat_assoc(ll, uu, t2);
    assert(s == ll + t1);
    assert(s[1] == ll[1]);
    lemma_lit_mismatch(s, "[]"@, 1);
    lemma_sp_lit_round(ll, t1);
    lemma_sp_uuid_round(us[0], t2);
    assert(t2[0] == '"');
    assert(t2.skip(1) =~= tail2);
    lemma_sp_list_rest_round(us.skip(1), rest);
    assert(seq![us[0]] + us.skip(1) =~= us);
}

/// The canonical array of a reference list parses back to the same list,
/// whatever text follows.
pub proof fn lemma_sp_uuid_list_round(us: Seq<Uuid>, rest: Seq<char>)
    ensures
        sp_uuid_list(uuid_list_text(us) + rest) == Some((us, rest)),
{
    if us.len() == 0 {
        reveal_strlit("[]");
        let s = uuid_list_text(us) + rest;
        assert(s =~= "[]"@ + rest);
        lemma_sp_lit_round("[]"@, rest);
    } else {
        lemma_sp_uuid_list_round_nonempty(us, rest);
    }
}

/// Append the canonical JSON array of the reference list `us`.
#[verifier::loop_isolation(false)]
fn push_uuid_list(out: &mut Vec<char>, us: &Vec<Uuid>)
    ensures
        final(out)@ == old(out)@ + uuid_list_text(us@),
{
    if us.len() == 0 {
        push_str_chars(out, "[]");
        return ;
    }
    push_str_chars(out, "[\n    \"");
    us[0].push_text(out);
    out.push('"');
    let ghost prefix = old(out)@ + "[\n    \""@ + uuid_text(us@[0]) + seq!['"'];
    proof {
        assert(out@ =~= prefix + uuid_list_tail(us@.skip(1)).take(0));
        assert(uuid_list_tail(us@.skip(us@.len() as int)) =~= Seq::<char>::empty());
    }
    let mut k: usize = 1;
    while k < us.len()
        invariant
            1 <= k <= us.len(),
            out@ == prefix + tail_text_upto(us@, k as int),
        decreases us.len() - k,
    {
        proof {
            lemma_tail_text_step(us@, k as int);
        }
        push_str_chars(out, ",\n    \"");
        us[k].push_text(out);
        out.push('"');
        proof {
            assert(out@ =~= prefix + tail_text_upto(us@, k + 1 as int));
        }
        k += 1;
    }
    push_str_chars(out, "\n  ]");
    proof {
        lemma_tail_text_whole(us@, us@.len() as int);
        assert(out@ =~= old(out)@ + uuid_list_text(us@));
    }
}

/// The text of the tail elements up to (not including) index `k`.
pub open spec fn tail_text_upto(us: Seq<Uuid>, k: int) -> Seq<char>
    decreases k,
{
    if k <= 1 {
        Seq::empty()
    } else {
        tail_text_upto(us, k - 1) + (",\n    \""@ + uuid_text(us[k - 1]) + seq!['"'])
    }
}

proof fn lemma_tail_text_step(us: Seq<Uuid>, k: int)
    requires
        1 <= k,
    ensures
        tail_text_upto(us, k + 1) == tail_text_upto(us, k) + (",\n    \""@ + uuid_text(us[k])
            + seq!['"']),
{
}

/// Collecting the tail elements one by one yields the recursive tail text.
proof fn lemma_tail_text_whole(us: Seq<Uuid>, n: int)
    requires
        1 <= n <= us.len(),
    ensures
        tail_text_upto(us, n) + uuid_list_tail(us.skip(n)) == uuid_list_tail(us.skip(1)),
    decreases n,
{
    if n == 1 {
        assert(tail_text_upto(us, 1) + uuid_list_tail(us.skip(1)) =~= uuid_list_tail(us.skip(1)));
    } else {
        lemma_tail_text_whole(us, n - 1);
        assert(us.skip(n - 1)[0] == us[n - 1]);
        assert(us.skip(n - 1).skip(1) =~= us.skip(n));
        assert(uuid_list_tail(us.skip(n - 1)) == ",\n    \""@ + uuid_text(us[n - 1]) + seq!['"']
            + uuid_list_tail(us.skip(n)));
        assert(tail_text_upto(us, n) + uuid_list_tail(us.skip(n)) =~= tail_text_upto(us, n - 1)
            + uuid_list_tail(us.skip(n - 1)));
    }
}

/// Read a reference list starting at `i`, exactly as `sp_uuid_list`
/// describes on the remaining input.
#[verifier::loop_isolation(false)]
#[verifier::rlimit(100)]
fn read_uuid_list(v: &Vec<char>, i: usize) -> (r: Option<(Vec<Uuid>, usize)>)
    requires
        i <= v.len(),
    ensures
        match r {
            Some((us, j)) => {
                &&& sp_uuid_list(v@.skip(i as int)) == Some((us@, v@.skip(j as int)))
                &&& i <= j <= v.len()
            },
            None => sp_uuid_list(v@.skip(i as int)) is None,
        },
{
    if let Some(j) = read_lit(v, i, "[]") {
        let out: Vec<Uuid> = Vec::new();
        proof {
            assert(out@ =~= Seq::<Uuid>::empty());
        }
        return Some((out, j));
    }
    let p1 = match read_lit(v, i, "[\n    \"") {
        None => {
            return None;
        },
        Some(x) => x,
    };
    let (u0, p2) = match read_uuid(v, p1) {
        None => {
            return None;
        },
        Some(x) => x,
    };
    if p2 >= v.len() || v[p2] != '"' {
        proof {
            assert(v@.skip(p2 as int).len() >= 1 ==> v@.skip(p2 as int)[0] == v@[p2 as int]);
        }
        return None;
    }
    proof {
        assert(v@.skip(p2 as int)[0] == v@[p2 as int]);
        assert(v@.skip(p2 as int).skip(1) =~= v@.skip(p2 + 1 as int));
    }
    let mut acc: Vec<Uuid> = Vec::new();
    acc.push(u0);
    let mut cur: usize = p2 + 1;
    loop
        invariant
            i <= cur <= v.len(),
            acc@.len() >= 1,
            sp_uuid_list(v@.skip(i as int)) == match sp_list_rest(v@.skip(cur as int)) {
                None => None::<(Seq<Uuid>, Seq<char>)>,
                Some((us, r)) => Some((acc@ + us, r)),
            },
        decreases v.len() - cur,
    {
        if let Some(q1) = read_lit(v, cur, ",\n    \"") {
            let (u, q2) = match read_uuid(v, q1) {
                None => {
                    return None;
                },
                Some(x) => x,
            };
            if q2 >= v.len() || v[q2] != '"' {
                proof {
                    let ghost qq = q2 as int;
                    assert(v@.skip(qq).len() >= 1 ==> v@.skip(qq)[0] == v@[qq]);
                }
                return None;
            }
            let ghost acc0 = acc@;
            let ghost restq = v@.skip(q2 + 1 as int);
            proof {
                assert(v@.skip(q2 as int)[0] == v@[q2 as int]);
                assert(v@.skip(q2 as int).skip(1) =~= restq);
            }
            acc.push(u);
            proof {
                match sp_list_rest(restq) {
                    Some(p) => {
                        assert(acc0.push(u) + p.0 =~= acc0 + (seq![u] + p.0));
                    },
                    None => {},
                }
            }
            cur = q2 + 1;
        } else if let Some(j) = read_lit(v, cur, "\n  ]") {
            proof {
                assert(acc@ + Seq::<Uuid>::empty() =~= acc@);
            }
            return Some((acc, j));
        } else {
            return None;
        }
    }
}

// ---------------------------------------------------------------------------
// Entity documents
// ---------------------------------------------------------------------------

/// The canonical document of a note.
pub open spec fn note_text(v: NoteV) -> Seq<char> {
    "{\n  \"title\": \""@ + esc_text(v.title) + "\",\n  \"content\": \""@ + esc_text(v.content)
        + "\",\n  \"meta\": "@ + meta_text(v.meta) + "\n}"@
}

/// Reading a note document out of the input.
#[verifier::opaque]
pub open spec fn sp_note(s: Seq<char>) -> Option<(NoteV, Seq<char>)> {
    match sp_lit(s, "{\n  \"title\": \""@) {
        None => None,
        Some(r1) => match sp_qstring_body(r1) {
            None => None,
            Some((title, r2)) => match sp_lit(r2, ",\n  \"content\": \""@) {
                None => None,
                Some(r3) => match sp_qstring_body(r3) {
                    None => None,
                    Some((content, r4)) => match sp_lit(r4, ",\n  \"meta\": "@) {
                        None => None,
                        Some(r5) => match sp_meta(r5) {
                            None => None,
                            Some((meta, r6)) => match sp_lit(r6, "\n}"@) {
                                None => None,
                                Some(r7) => Some((NoteV { title, content, meta }, r7)),
                            },
                        },
                    },
                },
            },
        },
    }
}

/// A note document the parser accepts carries well-formed metadata.
pub proof fn lemma_sp_note_wf(s: Seq<char>)
    ensures
        sp_note(s) matches Some(p) ==> p.0.wf(),
{
    reveal(sp_note);
    match sp_lit(s, "{\n  \"title\": \""@) {
        None => {},
        Some(r1) => match sp_qstring_body(r1) {
            None => {},
            Some((title, r2)) => match sp_lit(r2, ",\n  \"content\": \""@) {
                None => {},
                Some(r3) => match sp_qstring_body(r3) {
                    None => {},
                    Some((content, r4)) => match sp_lit(r4, ",\n  \"meta\": "@) {
                        None => {},
                        Some(r5) => {
                            lemma_sp_meta_wf(r5);
                        },
                    },
                },
            },
        },
    }
}

/// The canonical document of a well-formed note parses back to it,
/// whatever text follows.
#[verifier::rlimit(100)]
pub proof fn lemma_sp_note_round(v: NoteV, rest: Seq<char>)
    requires
        v.wf(),
    ensures
        sp_note(note_text(v) + rest) == Some((v, rest)),
{
    reveal(sp_note);
    reveal_strlit("{\n  \"title\": \"");
    reveal_strlit("\",\n  \"content\": \"");
    reveal_strlit(",\n  \"content\": \"");
    reveal_strlit("\",\n  \"meta\": ");
    reveal_strlit(",\n  \"meta\": ");
    reveal_strlit("\n}");
    let l1 = "{\n  \"title\": \""@;
    let l2q = "\",\n  \"content\": \""@;
    let l2 = ",\n  \"content\": \""@;
    let l4q = "\",\n  \"meta\": "@;
    let l4 = ",\n  \"meta\": "@;
    let l5 = "\n}"@;
    assert(l2q =~= seq!['"'] + l2);
    assert(l4q =~= seq!['"'] + l4);
    let e9 = l5 + rest;
    let e8 = meta_text(v.meta) + e9;
    let e7 = l4 + e8;
    let e6 = esc_text(v.content) + seq!['"'] + e7;
    let e5 = l2 + e6;
    let e4 = esc_text(v.title) + seq!['"'] + e5;
    let s0 = l1 + e4;
    assert(note_text(v) + rest == s0) by {
        let a = esc_text(v.title);
        let b = esc_text(v.content);
        let m = meta_text(v.meta);
        assert(note_text(v) == ((((l1 + a) + l2q) + b) + l4q + m) + l5);
        assert(note_text(v) + rest =~= s0);
    }
    lemma_sp_lit_round(l1, e4);
    lemma_sp_qstring_round(v.title, e5);
    lemma_sp_lit_round(l2, e6);
    lemma_sp_qstring_round(v.content, e7);
    lemma_sp_lit_round(l4, e8);
    lemma_sp_meta_round(v.meta, e9);
    lemma_sp_lit_round(l5, rest);
    assert(NoteV { title: v.title, content: v.content, meta: v.meta } =~= v);
}

/// What a whole string holds as a note document: the note, provided
/// nothing follows the closing brace.
pub open spec fn note_of_text(s: Seq<char>) -> Option<NoteV> {
    match sp_note(s) {
        Some((v, r)) => if r.len() == 0 {
            Some(v)
        } else {
            None
        },
        None => None,
    }
}

/// The persisted document of a note: parsing it back yields the note.
pub fn render_note(n: &Note) -> (r: String)
    requires
        n@.wf(),
    ensures
        r@ == note_text(n@),
{
    let mut out: Vec<char> = Vec::new();
    push_str_chars(&mut out, "{\n  \"title\": \"");
    push_escaped(&mut out, n.title.as_str());
    push_str_chars(&mut out, "\",\n  \"content\": \"");
    push_escaped(&mut out, n.content.as_str());
    push_str_chars(&mut out, "\",\n  \"meta\": ");
    push_meta(&mut out, &n.meta);
    push_str_chars(&mut out, "\n}");
    proof {
        assert(out@ =~= note_text(n@));
    }
    chars_to_string(&out)
}

/// Read a whole string as a note document.
pub fn parse_note(s: &str) -> (r: Option<Note>)
    ensures
        match r {
            Some(n) => note_of_text(s@) == Some(n@) && n@.wf(),
            None => note_of_text(s@) is None,
        },
{
    proof {
        reveal(sp_note);
        lemma_sp_note_wf(s@);
    }
    let v = str_chars(s);
    proof {
        assert(v@.skip(0) =~= s@);
    }
    let p1 = match read_lit(&v, 0, "{\n  \"title\": \"") {
        None => {
            return None;
        },
        Some(x) => x,
    };
    let (title, p2) = match read_qstring(&v, p1) {
        None => {
            return None;
        },
        Some(x) => x,
    };
    let p3 = match read_lit(&v, p2, ",\n  \"content\": \"") {
        None => {
            return None;
        },
        Some(x) => x,
    };
    let (content, p4) = match read_qstring(&v, p3) {
        None => {
            return None;
        },
        Some(x) => x,
    };
    let p5 = match read_lit(&v, p4, ",\n  \"meta\": ") {
        None => {
            return None;
        },
        Some(x) => x,
    };
    let (meta, p6) = match read_meta(&v, p5) {
        None => {
            return None;
        },
        Some(x) => x,
    };
    let p7 = match read_lit(&v, p6, "\n}") {
        None => {
            return None;
        },
        Some(x) => x,
    };
    if p7 != v.len() {
        proof {
            assert(v@.skip(p7 as int).len() != 0);
        }
        return None;
    }
    proof {
        assert(v@.skip(p7 as int).len() == 0);
    }
    let title_s = chars_to_string(&title);
    let content_s = chars_to_string(&content);
    Some(Note::from_parts(title_s, content_s, meta))
}

/// The canonical document of a task.
pub open spec fn task_text(v: TaskV) -> Seq<char> {
    "{\n  \"title\": \""@ + esc_text(v.title) + "\",\n  \"content\": \""@ + esc_text(v.content)
        + "\",\n  \"status\": \""@ + status_text(v.status) + "\",\n  \"meta\": "@ + meta_text(
        v.meta,
    ) + "\n}"@
}

/// Reading a task document out of the input.
#[verifier::opaque]
pub open spec fn sp_task(s: Seq<char>) -> Option<(TaskV, Seq<char>)> {
    match sp_lit(s, "{\n  \"title\": \""@) {
        None => None,
        Some(r1) => match sp_qstring_body(r1) {
            None => None,
            Some((title, r2)) => match sp_lit(r2, ",\n  \"content\": \""@) {
                None => None,
                Some(r3) => match sp_qstring_body(r3) {
                    None => None,
                    Some((content, r4)) => match sp_lit(r4, ",\n  \"status\": \""@) {
                        None => None,
                        Some(r5) => match sp_status(r5) {
                            None => None,
                            Some((status, r6)) => match sp_lit(r6, "\",\n  \"meta\": "@) {
                                None => None,
                                Some(r7) => match sp_meta(r7) {
                                    None => None,
                                    Some((meta, r8)) => match sp_lit(r8, "\n}"@) {
                                        None => None,
                                        Some(r9) => Some(
                                            (TaskV { title, content, status, meta }, r9),
                                        ),
                                    },
                                },
                            },
                        },
                    },
                },
            },
        },
    }
}

/// A task document the parser accepts carries well-formed metadata.
pub proof fn lemma_sp_task_wf(s: Seq<char>)
    ensures
        sp_task(s) matches Some(p) ==> p.0.wf(),
{
    reveal(sp_task);
    if sp_task(s) matches Some(p) {
        match sp_lit(s, "{\n  \"title\": \""@) {
            None => {},
            Some(r1) => match sp_qstring_body(r1) {
                None => {},
                Some((title, r2)) => match sp_lit(r2, ",\n  \"content\": \""@) {
                    None => {},
                    Some(r3) => match sp_qstring_body(r3) {
                        None => {},
                        Some((content, r4)) => match sp_lit(r4, ",\n  \"status\": \""@) {
                            None => {},
                            Some(r5) => match sp_status(r5) {
                                None => {},
                                Some((status, r6)) => match sp_lit(r6, "\",\n  \"meta\": "@) {
                                    None => {},
                                    Some(r7) => {
                                        lemma_sp_meta_wf(r7);
                                    },
                                },
                            },
                        },
                    },
                },
            },
        }
    }
}

/// The canonical document of a well-formed task parses back to it,
/// whatever text follows.
#[verifier::rlimit(100)]
pub proof fn lemma_sp_task_round(v: TaskV, rest: Seq<char>)
    requires
        v.wf(),
    ensures
        sp_task(task_text(v) + rest) == Some((v, rest)),
{
    reveal(sp_task);
    reveal_strlit("{\n  \"title\": \"");
    reveal_strlit("\",\n  \"content\": \"");
    reveal_strlit(",\n  \"content\": \"");
    reveal_strlit("\",\n  \"status\": \"");
    reveal_strlit(",\n  \"status\": \"");
    reveal_strlit("\",\n  \"meta\": ");
    reveal_strlit("\n}");
    let l1 = "{\n  \"title\": \""@;
    let l2q = "\",\n  \"content\": \""@;
    let l2 = ",\n  \"content\": \""@;
    let l3q = "\",\n  \"status\": \""@;
    let l3 = ",\n  \"status\": \""@;
    let l4q = "\",\n  \"meta\": "@;
    let l5 = "\n}"@;
    assert(l2q =~= seq!['"'] + l2);
    assert(l3q =~= seq!['"'] + l3);
    let e11 = l5 + rest;
    let e10 = meta_text(v.meta) + e11;
    let e9 = l4q + e10;
    let e8 = status_text(v.status) + e9;
    let e7 = l3 + e8;
    let e6 = esc_text(v.content) + seq!['"'] + e7;
    let e5 = l2 + e6;
    let e4 = esc_text(v.title) + seq!['"'] + e5;
    let s0 = l1 + e4;
    assert(task_text(v) + rest == s0) by {
        let a = esc_text(v.title);
        let b = esc_text(v.content);
        let st = status_text(v.status);
        let m = meta_text(v.meta);
        assert(task_text(v) == ((((((l1 + a) + l2q) + b) + l3q) + st) + l4q + m) + l5);
        assert(task_text(v) + rest =~= s0);
    }
    lemma_sp_lit_round(l1, e4);
    lemma_sp_qstring_round(v.title, e5);
    lemma_sp_lit_round(l2, e6);
    lemma_sp_qstring_round(v.content, e7);
    lemma_sp_lit_round(l3, e8);
    lemma_sp_status_round(v.status, e9);
    lemma_sp_lit_round(l4q, e10);
    lemma_sp_meta_round(v.meta, e11);
    lemma_sp_lit_round(l5, rest);
    assert(TaskV { title: v.title, content: v.content, status: v.status, meta: v.meta } =~= v);
}

/// What a whole string holds as a task document.
pub open spec fn task_of_text(s: Seq<char>) -> Option<TaskV> {
    match sp_task(s) {
        Some((v, r)) => if r.len() == 0 {
            Some(v)
        } else {
            None
        },
        None => None,
    }
}

/// The persisted document of a task: parsing it back yields the task.
pub fn render_task(t: &Task) -> (r: String)
    requires
        t@.wf(),
    ensures
        r@ == task_text(t@),
{
    let mut out: Vec<char> = Vec::new();
    push_str_chars(&mut out, "{\n  \"title\": \"");
    push_escaped(&mut out, t.title.as_str());
    push_str_chars(&mut out, "\",\n  \"content\": \"");
    push_escaped(&mut out, t.content.as_str());
    push_str_chars(&mut out, "\",\n  \"status\": \"");
    push_str_chars(&mut out, t.status.name());
    push_str_chars(&mut out, "\",\n  \"meta\": ");
    push_meta(&mut out, &t.meta);
    push_str_chars(&mut out, "\n}");
    proof {
        assert(out@ =~= task_text(t@));
    }
    chars_to_string(&out)
}

/// Read a whole string as a task document.
pub fn parse_task(s: &str) -> (r: Option<Task>)
    ensures
        match r {
            Some(t) => task_of_text(s@) == Some(t@) && t@.wf(),
            None => task_of_text(s@) is None,
        },
{
    proof {
        reveal(sp_task);
        lemma_sp_task_wf(s@);
    }
    let v = str_chars(s);
    proof {
        assert(v@.skip(0) =~= s@);
    }
    let p1 = match read_lit(&v, 0, "{\n  \"title\": \"") {
        None => {
            return None;
        },
        Some(x) => x,
    };
    let (title, p2) = match read_qstring(&v, p1) {
        None => {
            return None;
        },
        Some(x) => x,
    };
    let p3 = match read_lit(&v, p2, ",\n  \"content\": \"") {
        None => {
            return None;
        },
        Some(x) => x,
    };
    let (content, p4) = match read_qstring(&v, p3) {
        None => {
            return None;
        },
        Some(x) => x,
    };
    let p5 = match read_lit(&v, p4, ",\n  \"status\": \"") {
        None => {
            return None;
        },
        Some(x) => x,
    };
    let (status, p6) = match read_status(&v, p5) {
        None => {
            return None;
        },
        Some(x) => x,
    };
    let p7 = match read_lit(&v, p6, "\",\n  \"meta\": ") {
        None => {
            return None;
        },
        Some(x) => x,
    };
    let (meta, p8) = match read_meta(&v, p7) {
        None => {
            return None;
        },
        Some(x) => x,
    };
    let p9 = match read_lit(&v, p8, "\n}") {
        None => {
            return None;
        },
        Some(x) => x,
    };
    if p9 != v.len() {
        proof {
            assert(v@.skip(p9 as int).len() != 0);
        }
        return None;
    }
    proof {
        assert(v@.skip(p9 as int).len() == 0);
    }
    let title_s = chars_to_string(&title);
    let content_s = chars_to_string(&content);
    Some(Task::from_parts(title_s, content_s, status, meta))
}

/// The canonical document of a thread.
pub open spec fn thread_text(v: ThreadV) -> Seq<char> {
    "{\n  \"notes\": "@ + uuid_list_text(v.notes) + ",\n  \"tasks\": "@ + uuid_list_text(v.tasks)
        + ",\n  \"meta\": "@ + meta_text(v.meta) + "\n}"@
}

/// Reading a thread document out of the input.
#[verifier::opaque]
pub open spec fn sp_thread(s: Seq<char>) -> Option<(ThreadV, Seq<char>)> {
    match sp_lit(s, "{\n  \"notes\": "@) {
        None => None,
        Some(r1) => match sp_uuid_list(r1) {
            None => None,
            Some((notes, r2)) => match sp_lit(r2, ",\n  \"tasks\": "@) {
                None => None,
                Some(r3) => match sp_uuid_list(r3) {
                    None => None,
                    Some((tasks, r4)) => match sp_lit(r4, ",\n  \"meta\": "@) {
                        None => None,
                        Some(r5) => match sp_meta(r5) {
                            None => None,
                            Some((meta, r6)) => match sp_lit(r6, "\n}"@) {
                                None => None,
                                Some(r7) => Some((ThreadV { notes, tasks, meta }, r7)),
                            },
                        },
                    },
                },
            },
        },
    }
}

/// A thread document the parser accepts carries well-formed metadata.
pub proof fn lemma_sp_thread_wf(s: Seq<char>)
    ensures
        sp_thread(s) matches Some(p) ==> p.0.wf(),
{
    reveal(sp_thread);
    match sp_lit(s, "{\n  \"notes\": "@) {
        None => {},
        Some(r1) => match sp_uuid_list(r1) {
            None => {},
            Some((notes, r2)) => match sp_lit(r2, ",\n  \"tasks\": "@) {
                None => {},
                Some(r3) => match sp_uuid_list(r3) {
                    None => {},
                    Some((tasks, r4)) => match sp_lit(r4, ",\n  \"meta\": "@) {
                        None => {},
                        Some(r5) => {
                            lemma_sp_meta_wf(r5);
                        },
                    },
                },
            },
        },
    }
}

/// The canonical document of a well-formed thread parses back to it,
/// whatever text follows.
#[verifier::rlimit(100)]
pub proof fn lemma_sp_thread_round(v: ThreadV, rest: Seq<char>)
    requires
        v.wf(),
    ensures
        sp_thread(thread_text(v) + rest) == Some((v, rest)),
{
    reveal(sp_thread);
    let l1 = "{\n  \"notes\": "@;
    let l2 = ",\n  \"tasks\": "@;
    let l3 = ",\n  \"meta\": "@;
    let l5 = "\n}"@;
    let e7 = l5 + rest;
    let e6 = meta_text(v.meta) + e7;
    let e5 = l3 + e6;
    let e4 = uuid_list_text(v.tasks) + e5;
    let e3 = l2 + e4;
    let e2 = uuid_list_text(v.notes) + e3;
    let s0 = l1 + e2;
    assert(thread_text(v) + rest == s0) by {
        let a = uuid_list_text(v.notes);
        let b = uuid_list_text(v.tasks);
        let m = meta_text(v.meta);
        assert(thread_text(v) == ((((l1 + a) + l2) + b) + l3 + m) + l5);
        assert(thread_text(v) + rest =~= s0);
    }
    lemma_sp_lit_round(l1, e2);
    lemma_sp_uuid_list_round(v.notes, e3);
    lemma_sp_lit_round(l2, e4);
    lemma_sp_uuid_list_round(v.tasks, e5);
    lemma_sp_lit_round(l3, e6);
    lemma_sp_meta_round(v.meta, e7);
    lemma_sp_lit_round(l5, rest);
    assert(ThreadV { notes: v.notes, tasks: v.tasks, meta: v.meta } =~= v);
}

/// What a whole string holds as a thread document.
pub open spec fn thread_of_text(s: Seq<char>) -> Option<ThreadV> {
    match sp_thread(s) {
        Some((v, r)) => if r.len() == 0 {
            Some(v)
        } else {
            None
        },
        None => None,
    }
}

/// The persisted document of a thread: parsing it back yields the thread,
/// references only, never embedded entities.
pub fn render_thread(t: &Thread) -> (r: String)
    requires
        t@.wf(),
    ensures
        r@ == thread_text(t@),
{
    let mut out: Vec<char> = Vec::new();
    push_str_chars(&mut out, "{\n  \"notes\": ");
    push_uuid_list(&mut out, &t.notes);
    push_str_chars(&mut out, ",\n  \"tasks\": ");
    push_uuid_list(&mut out, &t.tasks);
    push_str_chars(&mut out, ",\n  \"meta\": ");
    push_meta(&mut out, &t.meta);
    push_str_chars(&mut out, "\n}");
    proof {
        assert(out@ =~= thread_text(t@));
    }
    chars_to_string(&out)
}

/// Read a whole string as a thread document.
pub fn parse_thread(s: &str) -> (r: Option<Thread>)
    ensures
        match r {
            Some(t) => thread_of_text(s@) == Some(t@) && t@.wf(),
            None => thread_of_text(s@) is None,
        },
{
    proof {
        reveal(sp_thread);
        lemma_sp_thread_wf(s@);
    }
    let v = str_chars(s);
    proof {
        assert(v@.skip(0) =~= s@);
    }
    let p1 = match read_lit(&v, 0, "{\n  \"notes\": ") {
        None => {
            return None;
        },
        Some(x) => x,
    };
    let (notes, p2) = match read_uuid_list(&v, p1) {
        None => {
            return None;
        },
        Some(x) => x,
    };
    let p3 = match read_lit(&v, p2, ",\n  \"tasks\": ") {
        None => {
            return None;
        },
        Some(x) => x,
    };
    let (tasks, p4) = match read_uuid_list(&v, p3) {
        None => {
            return None;
        },
        Some(x) => x,
    };
    let p5 = match read_lit(&v, p4, ",\n  \"meta\": ") {
        None => {
            return None;
        },
        Some(x) => x,
    };
    let (meta, p6) = match read_meta(&v, p5) {
        None => {
            return None;
        },
        Some(x) => x,
    };
    let p7 = match read_lit(&v, p6, "\n}") {
        None => {
            return None;
        },
        Some(x) => x,
    };
    if p7 != v.len() {
        proof {
            assert(v@.skip(p7 as int).len() != 0);
        }
        return None;
    }
    proof {
        assert(v@.skip(p7 as int).len() == 0);
    }
    Some(Thread::from_parts(notes, tasks, meta))
}

// ---------------------------------------------------------------------------
// Round trips
// ---------------------------------------------------------------------------

/// Serializing a well-formed note and deserializing the document yields
/// the note again, field for field.
pub proof fn lemma_note_round_trip(v: NoteV)
    requires
        v.wf(),
    ensures
        note_of_text(note_text(v)) == Some(v),
{
    lemma_sp_note_round(v, Seq::empty());
    assert(note_text(v) + Seq::<char>::empty() =~= note_text(v));
}

/// Serializing a well-formed task and deserializing the document yields
/// the task again, field for field.
pub proof fn lemma_task_round_trip(v: TaskV)
    requires
        v.wf(),
    ensures
        task_of_text(task_text(v)) == Some(v),
{
    lemma_sp_task_round(v, Seq::empty());
    assert(task_text(v) + Seq::<char>::empty() =~= task_text(v));
}

/// Serializing a well-formed thread and deserializing the document yields
/// the thread again: the same reference lists, never embedded entities.
pub proof fn lemma_thread_round_trip(v: ThreadV)
    requires
        v.wf(),
    ensures
        thread_of_text(thread_text(v)) == Some(v),
{
    lemma_sp_thread_round(v, Seq::empty());
    assert(thread_text(v) + Seq::<char>::empty() =~= thread_text(v));
}

} // verus!
