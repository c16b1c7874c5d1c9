//! Entity identifiers: 128-bit UUIDs held as two 64-bit halves, their
//! canonical hyphenated lowercase-hex text, and fresh random identifiers.

use vstd::prelude::*;
use vstd::arithmetic::power::pow;
use crate::text::{
    chars_to_string, digit_seq, lemma_div_bound, lemma_pow_values, lemma_sp_digits_round,
    push_digits, read_digits, sp_digits, str_chars,
};

verus! {

/// A 128-bit entity identifier: the most significant and least significant
/// 64 bits of the UUID value.
#[derive(Clone, Copy, PartialEq, Eq, Structural, Debug)]
pub struct Uuid {
    pub hi: u64,
    pub lo: u64,
}

/// The canonical text of a UUID: its 32 lowercase hexadecimal digits in
/// groups of 8, 4, 4, 4 and 12, separated by dashes.
pub open spec fn uuid_text(u: Uuid) -> Seq<char> {
    digit_seq(16, u.hi as int / 0x100000000, 8) + seq!['-'] + digit_seq(
        16,
        (u.hi as int / 0x10000) % 0x10000,
        4,
    ) + seq!['-'] + digit_seq(16, u.hi as int % 0x10000, 4) + seq!['-'] + digit_seq(
        16,
        u.lo as int / 0x1000000000000,
        4,
    ) + seq!['-'] + digit_seq(16, u.lo as int % 0x1000000000000, 12)
}

/// Relies on `uuid::Uuid::new_v4` and `uuid::Uuid::as_u64_pair`: a freshly
/// generated random (version 4) UUID, as its most significant and least
/// significant 64 bits.  Nothing is assumed about the random value.
#[verifier::external_body]
fn fresh_uuid_raw() -> (r: (u64, u64)) {
    uuid::Uuid::new_v4().as_u64_pair()
}

impl Uuid {
    /// A new random identifier.
    pub fn fresh() -> Uuid {
        let (hi, lo) = fresh_uuid_raw();
        Uuid { hi, lo }
    }

    /// Append the canonical text of this identifier.
    pub fn push_text(&self, out: &mut Vec<char>)
        ensures
            final(out)@ == old(out)@ + uuid_text(*self),
    {
        proof {
            lemma_pow_values();
            lemma_div_bound(self.hi as int, 0x100000000, 0x100000000);
            lemma_div_bound(self.hi as int, 0x10000, 0x1000000000000);
            vstd::arithmetic::div_mod::lemma_mod_bound(self.hi as int / 0x10000, 0x10000);
            vstd::arithmetic::div_mod::lemma_mod_bound(self.hi as int, 0x10000);
            lemma_div_bound(self.lo as int, 0x1000000000000, 0x10000);
            vstd::arithmetic::div_mod::lemma_mod_bound(self.lo as int, 0x1000000000000);
        }
        push_digits(out, 16, self.hi / 0x100000000, 8);
        out.push('-');
        push_digits(out, 16, (self.hi / 0x10000) % 0x10000, 4);
        out.push('-');
        push_digits(out, 16, self.hi % 0x10000, 4);
        out.push('-');
        push_digits(out, 16, self.lo / 0x1000000000000, 4);
        out.push('-');
        push_digits(out, 16, self.lo % 0x1000000000000, 12);
        proof {
            assert(out@ =~= old(out)@ + uuid_text(*self));
        }
    }

    /// The canonical text of this identifier.
    pub fn to_text(&self) -> (r: String)
        ensures
            r@ == uuid_text(*self),
    {
        let mut out: Vec<char> = Vec::new();
        self.push_text(&mut out);
        chars_to_string(&out)
    }
}

/// Reading a canonical UUID text out of the middle of a character sequence.
#[verifier::opaque]
pub open spec fn sp_uuid(s: Seq<char>) -> Option<(Uuid, Seq<char>)> {
    match sp_digits(s, 16, 8) {
        None => None,
        Some((g1, r1)) => {
            if r1.len() >= 1 && r1[0] == '-' {
                match sp_digits(r1.skip(1), 16, 4) {
                    None => None,
                    Some((g2, r2)) => {
                        if r2.len() >= 1 && r2[0] == '-' {
                            match sp_digits(r2.skip(1), 16, 4) {
                                None => None,
                                Some((g3, r3)) => {
                                    if r3.len() >= 1 && r3[0] == '-' {
                                        match sp_digits(r3.skip(1), 16, 4) {
                                            None => None,
                                            Some((g4, r4)) => {
                                                if r4.len() >= 1 && r4[0] == '-' {
                                                    match sp_digits(r4.skip(1), 16, 12) {
                                                        None => None,
                                                        Some((g5, r5)) => Some(
                                                            (
                                                                Uuid {
                                                                    hi: (g1 * 0x100000000 + g2
                                                                        * 0x10000 + g3) as u64,
                                                                    lo: (g4 * 0x1000000000000
                                                                        + g5) as u64,
                                                                },
                                                                r5,
                                                            ),
                                                        ),
                                                    }
                                                } else {
                                                    None
                                                }
                                            },
                                        }
                                    } else {
                                        None
                                    }
                                },
                            }
                        } else {
                            None
                        }
                    },
                }
            } else {
                None
            }
        },
    }
}

/// Splitting a 64-bit value into its top 8, middle 4 and bottom 4 hex-digit
/// groups loses nothing.
proof fn lemma_u64_split(x: int)
    requires
        0 <= x < 0x10000000000000000,
    ensures
        x == (x / 0x100000000) * 0x100000000 + ((x / 0x10000) % 0x10000) * 0x10000 + x % 0x10000,
{
    vstd::arithmetic::div_mod::lemma_fundamental_div_mod(x, 0x10000);
    vstd::arithmetic::div_mod::lemma_fundamental_div_mod(x / 0x10000, 0x10000);
    vstd::arithmetic::div_mod::lemma_div_denominator(x, 0x10000, 0x10000);
    assert(x == (x / 0x100000000) * 0x100000000 + ((x / 0x10000) % 0x10000) * 0x10000 + x
        % 0x10000) by (nonlinear_arith)
        requires
            x == 0x10000 * (x / 0x10000) + x % 0x10000,
            x / 0x10000 == 0x10000 * ((x / 0x10000) / 0x10000) + (x / 0x10000) % 0x10000,
            (x / 0x10000) / 0x10000 == x / 0x100000000,
    ;
}

/// The canonical text of a UUID parses back to the same UUID, whatever text
/// follows it.
pub proof fn lemma_sp_uuid_round(u: Uuid, rest: Seq<char>)
    ensures
        sp_uuid(uuid_text(u) + rest) == Some((u, rest)),
{
    reveal(sp_uuid);
    lemma_pow_values();
    let g1 = u.hi as int / 0x100000000;
    let g2 = (u.hi as int / 0x10000) % 0x10000;
    let g3 = u.hi as int % 0x10000;
    let g4 = u.lo as int / 0x1000000000000;
    let g5 = u.lo as int % 0x1000000000000;
    lemma_div_bound(u.hi as int, 0x100000000, 0x100000000);
    lemma_div_bound(u.hi as int, 0x10000, 0x1000000000000);
    vstd::arithmetic::div_mod::lemma_mod_bound(u.hi as int / 0x10000, 0x10000);
    vstd::arithmetic::div_mod::lemma_mod_bound(u.hi as int, 0x10000);
    lemma_div_bound(u.lo as int, 0x1000000000000, 0x10000);
    vstd::arithmetic::div_mod::lemma_mod_bound(u.lo as int, 0x1000000000000);
    let t5 = digit_seq(16, g5, 12) + rest;
    let t4 = digit_seq(16, g4, 4) + (seq!['-'] + t5);
    let t3 = digit_seq(16, g3, 4) + (seq!['-'] + t4);
    let t2 = digit_seq(16, g2, 4) + (seq!['-'] + t3);
    let t1 = digit_seq(16, g1, 8) + (seq!['-'] + t2);
    assert(uuid_text(u) + rest =~= t1);
    lemma_sp_digits_round(16, g1, 8, seq!['-'] + t2);
    assert((seq!['-'] + t2).skip(1) =~= t2);
    lemma_sp_digits_round(16, g2, 4, seq!['-'] + t3);
    assert((seq!['-'] + t3).skip(1) =~= t3);
    lemma_sp_digits_round(16, g3, 4, seq!['-'] + t4);
    assert((seq!['-'] + t4).skip(1) =~= t4);
    lemma_sp_digits_round(16, g4, 4, seq!['-'] + t5);
    assert((seq!['-'] + t5).skip(1) =~= t5);
    lemma_sp_digits_round(16, g5, 12, rest);
    lemma_u64_split(u.hi as int);
    vstd::arithmetic::div_mod::lemma_fundamental_div_mod(u.lo as int, 0x1000000000000);
    assert((g1 * 0x100000000 + g2 * 0x10000 + g3) as u64 == u.hi);
    assert((g4 * 0x1000000000000 + g5) as u64 == u.lo);
}

/// A parsed UUID consumes exactly its 36 characters.
pub proof fn lemma_sp_uuid_len(s: Seq<char>)
    ensures
        sp_uuid(s) matches Some(p) ==> p.1.len() == s.len() - 36,
{
    reveal(sp_uuid);
}

/// Read a canonical UUID text starting at `i`, exactly as `sp_uuid`
/// describes on the remaining input.
pub fn read_uuid(v: &Vec<char>, i: usize) -> (r: Option<(Uuid, usize)>)
    requires
        i <= v.len(),
    ensures
        match r {
            Some((u, j)) => {
                &&& sp_uuid(v@.skip(i as int)) == Some((u, v@.skip(j as int)))
                &&& i < j <= v.len()
            },
            None => sp_uuid(v@.skip(i as int)) is None,
        },
{
    proof {
        reveal(sp_uuid);
        lemma_pow_values();
    }
    let ghost s = v@.skip(i as int);
    let r1 = match read_digits(v, i, 16, 8) {
        None => {
            return None;
        },
        Some(x) => x,
    };
    if r1.1 >= v.len() || v[r1.1] != '-' {
        proof {
            assert(v@.skip(r1.1 as int).len() >= 1 ==> v@.skip(r1.1 as int)[0] == v@[r1.1 as int]);
        }
        return None;
    }
    proof {
        assert(v@.skip(r1.1 as int)[0] == v@[r1.1 as int]);
        assert(v@.skip(r1.1 as int).skip(1) =~= v@.skip(r1.1 + 1 as int));
    }
    let r2 = match read_digits(v, r1.1 + 1, 16, 4) {
        None => {
            return None;
        },
        Some(x) => x,
    };
    if r2.1 >= v.len() || v[r2.1] != '-' {
        proof {
            assert(v@.skip(r2.1 as int).len() >= 1 ==> v@.skip(r2.1 as int)[0] == v@[r2.1 as int]);
        }
        return None;
    }
    proof {
        assert(v@.skip(r2.1 as int)[0] == v@[r2.1 as int]);
        assert(v@.skip(r2.1 as int).skip(1) =~= v@.skip(r2.1 + 1 as int));
    }
    let r3 = match read_digits(v, r2.1 + 1, 16, 4) {
        None => {
            return None;
        },
        Some(x) => x,
    };
    if r3.1 >= v.len() || v[r3.1] != '-' {
        proof {
            assert(v@.skip(r3.1 as int).len() >= 1 ==> v@.skip(r3.1 as int)[0] == v@[r3.1 as int]);
        }
        return None;
    }
    proof {
        assert(v@.skip(r3.1 as int)[0] == v@[r3.1 as int]);
        assert(v@.skip(r3.1 as int).skip(1) =~= v@.skip(r3.1 + 1 as int));
    }
    let r4 = match read_digits(v, r3.1 + 1, 16, 4) {
        None => {
            return None;
        },
        Some(x) => x,
    };
    if r4.1 >= v.len() || v[r4.1] != '-' {
        proof {
            assert(v@.skip(r4.1 as int).len() >= 1 ==> v@.skip(r4.1 as int)[0] == v@[r4.1 as int]);
        }
        return None;
    }
    proof {
        assert(v@.skip(r4.1 as int)[0] == v@[r4.1 as int]);
        assert(v@.skip(r4.1 as int).skip(1) =~= v@.skip(r4.1 + 1 as int));
    }
    let r5 = match read_digits(v, r4.1 + 1, 16, 12) {
        None => {
            return None;
        },
        Some(x) => x,
    };
    let hi: u64 = r1.0 * 0x100000000 + r2.0 * 0x10000 + r3.0;
    let lo: u64 = r4.0 * 0x1000000000000 + r5.0;
    Some((Uuid { hi, lo }, r5.1))
}

/// What a whole string of canonical UUID text denotes: the UUID, provided
/// nothing follows it.
pub open spec fn uuid_of_text(s: Seq<char>) -> Option<Uuid> {
    match sp_uuid(s) {
        Some((u, rest)) => if rest.len() == 0 {
            Some(u)
        } else {
            None
        },
        None => None,
    }
}

/// The canonical text of a UUID, taken as a whole string, parses back to
/// the same UUID.
pub proof fn lemma_uuid_text_round(u: Uuid)
    ensures
        uuid_of_text(uuid_text(u)) == Some(u),
{
    lemma_sp_uuid_round(u, Seq::empty());
    assert(uuid_text(u) + Seq::<char>::empty() =~= uuid_text(u));
}

/// Parse a whole string as canonical UUID text.
pub fn parse_uuid_str(s: &str) -> (r: Option<Uuid>)
    ensures
        r == uuid_of_text(s@),
{
    let v = str_chars(s);
    proof {
        assert(v@.skip(0) =~= s@);
    }
    match read_uuid(&v, 0) {
        Some((u, j)) => {
            if j == v.len() {
                proof {
                    assert(v@.skip(j as int).len() == 0);
                }
                Some(u)
            } else {
                None
            }
        },
        None => None,
    }
}

} // verus!
