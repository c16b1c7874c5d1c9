//! Character-level utilities shared by the document codec: moving text
//! between `String` and `Vec<char>`, and fixed-width decimal / hexadecimal
//! digit runs with exact value semantics.

use vstd::prelude::*;
use vstd::arithmetic::power::pow;

verus! {

/// Relies on `String: FromIterator<char>`: collecting an iterator of
/// characters yields the string consisting of exactly those characters.
#[verifier::external_body]
pub fn chars_to_string(v: &Vec<char>) -> (r: String)
    ensures
        r@ == v@,
{
    v.iter().collect()
}

/// Append every character of `s` to `out`.
pub fn push_str_chars(out: &mut Vec<char>, s: &str)
    ensures
        final(out)@ == old(out)@ + s@,
{
    let n = s.unicode_len();
    let mut j: usize = 0;
    while j < n
        invariant
            j <= n,
            n == s@.len(),
            out@ == old(out)@ + s@.take(j as int),
        decreases n - j,
    {
        let c = s.get_char(j);
        out.push(c);
        proof {
            assert(s@.take(j + 1 as int) =~= s@.take(j as int).push(s@[j as int]));
        }
        j += 1;
    }
    proof {
        assert(s@.take(n as int) =~= s@);
    }
}

/// The characters of `s`, in order, as a vector.
pub fn str_chars(s: &str) -> (r: Vec<char>)
    ensures
        r@ == s@,
{
    let mut out: Vec<char> = Vec::new();
    push_str_chars(&mut out, s);
    out
}

// ---------------------------------------------------------------------------
// Digits
// ---------------------------------------------------------------------------

pub open spec fn is_dec_digit(c: char) -> bool {
    48 <= c as u32 <= 57
}

pub open spec fn is_hex_lower_digit(c: char) -> bool {
    is_dec_digit(c) || 97 <= c as u32 <= 102
}

/// Which characters a digit run of the given base is made of: decimal digits,
/// or decimal digits together with the lowercase letters `a`-`f`.
pub open spec fn digit_ok(base: int, c: char) -> bool {
    if base == 10 {
        is_dec_digit(c)
    } else {
        is_hex_lower_digit(c)
    }
}

/// The character that writes one digit value (lowercase for 10..15).
pub open spec fn digit_char(d: int) -> char
    recommends
        0 <= d < 16,
{
    if d < 10 {
        ((48 + d) as u8) as char
    } else {
        ((87 + d) as u8) as char
    }
}

/// The value of one digit character.
pub open spec fn digit_val(c: char) -> int {
    if c as u32 >= 97 {
        c as u32 - 87
    } else {
        c as u32 - 48
    }
}

/// `v` written as exactly `width` digits of the given base, most significant
/// digit first (leading zeros kept).
pub open spec fn digit_seq(base: int, v: int, width: nat) -> Seq<char>
    decreases width,
{
    if width == 0 {
        Seq::empty()
    } else {
        digit_seq(base, v / base, (width - 1) as nat).push(digit_char(v % base))
    }
}

/// The value of a run of digit characters, most significant first.
pub open spec fn digit_seq_val(base: int, s: Seq<char>) -> int
    decreases s.len(),
{
    if s.len() == 0 {
        0
    } else {
        digit_seq_val(base, s.drop_last()) * base + digit_val(s.last())
    }
}

pub proof fn lemma_digit_char_val(d: int)
    requires
        0 <= d < 16,
    ensures
        digit_val(digit_char(d)) == d,
        digit_ok(16, digit_char(d)),
        d < 10 ==> digit_ok(10, digit_char(d)),
{
}

/// Writing a value as `width` digits and reading the digits back yields the
/// value again, provided the value fits in that many digits.
pub proof fn lemma_digit_seq_val(base: int, v: int, width: nat)
    requires
        base == 10 || base == 16,
        0 <= v < pow(base, width),
    ensures
        digit_seq(base, v, width).len() == width,
        digit_seq_val(base, digit_seq(base, v, width)) == v,
        forall|j: int|
            0 <= j < width ==> digit_ok(base, #[trigger] digit_seq(base, v, width)[j]),
    decreases width,
{
    if width > 0 {
        let q = v / base;
        let m = v % base;
        assert(0 <= m < base && v == q * base + m) by {
            vstd::arithmetic::div_mod::lemma_fundamental_div_mod(v, base);
        }
        assert(q < pow(base, (width - 1) as nat)) by {
            assert(pow(base, width) == pow(base, (width - 1) as nat) * base) by {
                vstd::arithmetic::power::lemma_pow_adds(base, (width - 1) as nat, 1);
                vstd::arithmetic::power::lemma_pow1(base);
            }
            assert(v < pow(base, (width - 1) as nat) * base);
            assert(q * base + m < pow(base, (width - 1) as nat) * base);
            assert(q < pow(base, (width - 1) as nat)) by (nonlinear_arith)
                requires
                    q * base + m < pow(base, (width - 1) as nat) * base,
                    0 <= m < base,
                    base > 0,
                    q >= 0,
            ;
        }
        lemma_digit_seq_val(base, q, (width - 1) as nat);
        let s = digit_seq(base, v, width);
        assert(s.drop_last() =~= digit_seq(base, q, (width - 1) as nat));
        lemma_digit_char_val(m);
        assert(s.last() == digit_char(m));
        assert(digit_seq_val(base, s.drop_last()) == q);
        assert(digit_seq_val(base, s) == q * base + m);
    } else {
        vstd::arithmetic::power::lemma_pow0(base);
        assert(v == 0);
    }
}

/// Append `v` as exactly `width` digits of the given base.
pub fn push_digits(out: &mut Vec<char>, base: u64, v: u64, width: usize)
    requires
        base == 10 || base == 16,
        (v as int) < pow(base as int, width as nat),
    ensures
        final(out)@ == old(out)@ + digit_seq(base as int, v as int, width as nat),
    decreases width,
{
    if width == 0 {
        proof {
            assert(out@ =~= out@ + digit_seq(base as int, v as int, 0));
        }
    } else {
        proof {
            vstd::arithmetic::div_mod::lemma_fundamental_div_mod(v as int, base as int);
            assert(pow(base as int, width as nat)
                == pow(base as int, (width - 1) as nat) * (base as int)) by {
                vstd::arithmetic::power::lemma_pow_adds(base as int, (width - 1) as nat, 1);
                vstd::arithmetic::power::lemma_pow1(base as int);
            }
            assert((v as int) / (base as int) < pow(base as int, (width - 1) as nat))
                by (nonlinear_arith)
                requires
                    (v as int) < pow(base as int, (width - 1) as nat) * (base as int),
                    base > 0,
                    v >= 0,
            ;
        }
        push_digits(out, base, v / base, width - 1);
        let d = v % base;
        let c: char = if d < 10 {
            (48 + d as u8) as char
        } else {
            (87 + d as u8) as char
        };
        assert(c == digit_char((v as int) % (base as int)));
        out.push(c);
        proof {
            assert(out@ =~= old(out)@ + digit_seq(base as int, v as int, width as nat));
        }
    }
}

/// Reading a fixed-width digit run out of the middle of a character sequence:
/// `None` unless the next `width` characters are all digits of the base.
pub open spec fn sp_digits(s: Seq<char>, base: int, width: nat) -> Option<(int, Seq<char>)> {
    if s.len() >= width && (forall|j: int| 0 <= j < width ==> digit_ok(base, #[trigger] s[j])) {
        Some((digit_seq_val(base, s.take(width as int)), s.skip(width as int)))
    } else {
        None
    }
}

/// A rendered digit run parses back to its value, whatever text follows it.
pub proof fn lemma_sp_digits_round(base: int, v: int, width: nat, rest: Seq<char>)
    requires
        base == 10 || base == 16,
        0 <= v < pow(base, width),
    ensures
        sp_digits(digit_seq(base, v, width) + rest, base, width) == Some((v, rest)),
{
    lemma_digit_seq_val(base, v, width);
    let s = digit_seq(base, v, width) + rest;
    assert(s.take(width as int) =~= digit_seq(base, v, width));
    assert(s.skip(width as int) =~= rest);
}

/// Read `width` digit characters of `base` starting at `i`, exactly as
/// `sp_digits` describes on the remaining input.
pub fn read_digits(v: &Vec<char>, i: usize, base: u64, width: usize) -> (r: Option<(u64, usize)>)
    requires
        base == 10 || base == 16,
        i <= v.len(),
        pow(base as int, width as nat) <= u64::MAX + 1,
    ensures
        match r {
            Some((val, j)) => {
                &&& sp_digits(v@.skip(i as int), base as int, width as nat)
                    == Some(((val as int), v@.skip(j as int)))
                &&& (val as int) < pow(base as int, width as nat)
                &&& j == i + width
                &&& j <= v.len()
            },
            None => sp_digits(v@.skip(i as int), base as int, width as nat) is None,
        },
{
    if v.len() - i < width {
        return None;
    }
    let ghost s = v@.skip(i as int);
    proof {
        vstd::arithmetic::power::lemma_pow0(base as int);
    }
    let mut acc: u64 = 0;
    let mut k: usize = 0;
    while k < width
        invariant
            0 <= k <= width,
            i + width <= v.len(),
            base == 10 || base == 16,
            s == v@.skip(i as int),
            pow(base as int, width as nat) <= u64::MAX + 1,
            acc == digit_seq_val(base as int, s.take(k as int)),
            acc < pow(base as int, k as nat),
            forall|j: int| 0 <= j < k ==> digit_ok(base as int, #[trigger] s[j]),
        decreases width - k,
    {
        let c = v[i + k];
        assert(c == s[k as int]);
        let cv = c as u32;
        let d: u64 = if 48 <= cv && cv <= 57 {
            (cv - 48) as u64
        } else if base == 16 && 97 <= cv && cv <= 102 {
            (cv - 87) as u64
        } else {
            return None;
        };
        proof {
            assert(digit_ok(base as int, c));
            assert(d == digit_val(c));
            vstd::arithmetic::power::lemma_pow_adds(base as int, k as nat, 1);
            vstd::arithmetic::power::lemma_pow1(base as int);
            assert(pow(base as int, (k + 1) as nat) == pow(base as int, k as nat) * (base as int));
            vstd::arithmetic::power::lemma_pow_increases(base as nat, (k + 1) as nat, width as nat);
            assert(acc * (base as int) + (d as int) < pow(base as int, (k + 1) as nat))
                by (nonlinear_arith)
                requires
                    acc < pow(base as int, k as nat),
                    0 <= (d as int) < (base as int),
                    pow(base as int, (k + 1) as nat) == pow(base as int, k as nat) * (base as int),
                    acc >= 0,
                    base > 0,
            ;
            assert(s.take(k + 1 as int).drop_last() =~= s.take(k as int));
        }
        acc = acc * base + d;
        k += 1;
    }
    proof {
        assert(s.take(width as int) == s.take(width as int));
    }
    Some((acc, i + width))
}

/// A run of digit characters has a value between zero and the base raised
/// to its length.
pub proof fn lemma_digit_seq_val_bounds(base: int, s: Seq<char>)
    requires
        base == 10 || base == 16,
        forall|j: int| 0 <= j < s.len() ==> digit_ok(base, #[trigger] s[j]),
    ensures
        0 <= digit_seq_val(base, s) < pow(base, s.len() as nat),
    decreases s.len(),
{
    if s.len() == 0 {
        vstd::arithmetic::power::lemma_pow0(base);
    } else {
        let pre = s.drop_last();
        assert(forall|j: int| 0 <= j < pre.len() ==> digit_ok(base, #[trigger] pre[j]));
        lemma_digit_seq_val_bounds(base, pre);
        assert(0 <= digit_val(s.last()) < base);
        assert(pow(base, s.len() as nat) == pow(base, pre.len() as nat) * base) by {
            vstd::arithmetic::power::lemma_pow_adds(base, pre.len() as nat, 1);
            vstd::arithmetic::power::lemma_pow1(base);
        }
        assert(digit_seq_val(base, pre) * base + digit_val(s.last()) < pow(base, pre.len() as nat)
            * base) by (nonlinear_arith)
            requires
                digit_seq_val(base, pre) <= pow(base, pre.len() as nat) - 1,
                0 <= digit_val(s.last()) < base,
                base > 0,
        ;
        assert(digit_seq_val(base, pre) * base >= 0) by (nonlinear_arith)
            requires
                digit_seq_val(base, pre) >= 0,
                base > 0,
        ;
    }
}

/// Bounds of the value a digit run in the middle of a sequence denotes.
pub proof fn lemma_sp_digits_bounds(s: Seq<char>, base: int, width: nat)
    requires
        base == 10 || base == 16,
    ensures
        sp_digits(s, base, width) matches Some(p) ==> 0 <= p.0 < pow(base, width),
{
    if sp_digits(s, base, width) matches Some(p) {
        let pre = s.take(width as int);
        assert(forall|j: int| 0 <= j < pre.len() ==> digit_ok(base, #[trigger] pre[j]));
        lemma_digit_seq_val_bounds(base, pre);
    }
}

/// Concatenation of character sequences is associative.
pub proof fn lemma_concat_assoc(a: Seq<char>, b: Seq<char>, c: Seq<char>)
    ensures
        (a + b) + c == a + (b + c),
{
    assert((a + b) + c =~= a + (b + c));
}

/// Dividing by `d` keeps a value below `c` whenever the value is below
/// `c * d`.
pub proof fn lemma_div_bound(x: int, d: int, c: int)
    requires
        0 <= x < c * d,
        d > 0,
    ensures
        0 <= x / d < c,
{
    vstd::arithmetic::div_mod::lemma_fundamental_div_mod(x, d);
    vstd::arithmetic::div_mod::lemma_mod_bound(x, d);
    assert(x / d < c) by (nonlinear_arith)
        requires
            x == d * (x / d) + x % d,
            0 <= x % d < d,
            x < c * d,
            d > 0,
    ;
    vstd::arithmetic::div_mod::lemma_div_pos_is_pos(x, d);
}

/// `pow` instances the callers use, so call sites need no arithmetic library
/// reasoning of their own.
pub proof fn lemma_pow_values()
    ensures
        pow(10, 2) == 100,
        pow(10, 4) == 10000,
        pow(10, 9) == 1000000000,
        pow(16, 2) == 256,
        pow(16, 4) == 0x10000,
        pow(16, 8) == 0x100000000,
        pow(16, 12) == 0x1000000000000,
    {
        reveal_with_fuel(pow, 13);
        assert(pow(10, 2) == 100);
        assert(pow(10, 4) == 10000);
        assert(pow(10, 9) == 1000000000);
        assert(pow(16, 2) == 256);
        assert(pow(16, 4) == 0x10000);
        assert(pow(16, 8) == 0x100000000);
        assert(pow(16, 12) == 0x1000000000000);
    }

} // verus!
