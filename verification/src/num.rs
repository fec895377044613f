//! Number parsing and formatting with the semantics of std's `FromStr`,
//! `from_str_radix` and `Display` for the integer types the sources use.
use vstd::prelude::*;

use crate::text::push_char;

verus! {

// ---------- Specification ----------

/// Value of a digit character in the given radix (10 or 16).
pub open spec fn digit_val(c: char, radix: nat) -> Option<nat> {
    if '0' <= c && c <= '9' {
        Some((c as nat - '0' as nat) as nat)
    } else if radix == 16 && 'a' <= c && c <= 'f' {
        Some((c as nat - 'a' as nat + 10) as nat)
    } else if radix == 16 && 'A' <= c && c <= 'F' {
        Some((c as nat - 'A' as nat + 10) as nat)
    } else {
        None
    }
}

/// Value of a string of digits, most significant first; `None` when a
/// character is not a digit.
pub open spec fn digits_value(s: Seq<char>, radix: nat) -> Option<nat>
    decreases s.len(),
{
    if s.len() == 0 {
        Some(0)
    } else {
        match (digits_value(s.drop_last(), radix), digit_val(s.last(), radix)) {
            (Some(v), Some(d)) => Some(v * radix + d),
            _ => None,
        }
    }
}

/// `<unsigned>::from_str_radix(s, radix)` for an unsigned type whose largest
/// value is `max`: an optional `+`, then at least one digit, and a value that
/// fits.
pub open spec fn parse_unsigned(s: Seq<char>, radix: nat, max: nat) -> Option<nat> {
    let digits = if s.len() > 0 && s[0] == '+' {
        s.drop_first()
    } else {
        s
    };
    if digits.len() == 0 {
        None
    } else {
        match digits_value(digits, radix) {
            Some(v) => if v <= max {
                Some(v)
            } else {
                None
            },
            None => None,
        }
    }
}

/// `s.parse::<i32>()`: an optional `+` or `-`, then at least one decimal
/// digit, and a value in range.
pub open spec fn parse_i32(s: Seq<char>) -> Option<i32> {
    let neg = s.len() > 0 && s[0] == '-';
    let digits = if s.len() > 0 && (s[0] == '+' || s[0] == '-') {
        s.drop_first()
    } else {
        s
    };
    if digits.len() == 0 {
        None
    } else {
        match digits_value(digits, 10) {
            Some(v) => if neg && v <= 0x8000_0000 {
                Some((-v) as i32)
            } else if !neg && v <= 0x7fff_ffff {
                Some(v as i32)
            } else {
                None
            },
            None => None,
        }
    }
}

pub open spec fn digit_char(d: nat) -> char {
    ('0' as nat + d) as char
}

/// Decimal digits of `n`, most significant first, no leading zeros.
pub open spec fn dec_nat(n: nat) -> Seq<char>
    decreases n,
{
    if n < 10 {
        seq![digit_char(n)]
    } else {
        dec_nat(n / 10) + seq![digit_char(n % 10)]
    }
}

/// `n.to_string()` for a signed integer.
pub open spec fn dec_int(n: int) -> Seq<char> {
    if n < 0 {
        seq!['-'] + dec_nat((-n) as nat)
    } else {
        dec_nat(n as nat)
    }
}

/// The digits of `n` are decimal digits, at least one, and read back as `n`.
pub proof fn lemma_dec_nat_digits(n: nat)
    ensures
        dec_nat(n).len() > 0,
        forall|i: int| 0 <= i < dec_nat(n).len() ==> '0' <= #[trigger] dec_nat(n)[i] <= '9',
        digits_value(dec_nat(n), 10) == Some(n),
    decreases n,
{
    let d = n % 10;
    assert(digit_char(d) as nat == '0' as nat + d);
    assert(digit_val(digit_char(d), 10) == Some(d));
    if n < 10 {
        assert(dec_nat(n).drop_last() =~= Seq::<char>::empty());
        assert(digits_value(Seq::<char>::empty(), 10) == Some(0nat));
        assert(d == n);
        assert(digits_value(dec_nat(n), 10) == Some(0 * 10 + d));
    } else {
        lemma_dec_nat_digits(n / 10);
        let s = dec_nat(n);
        assert(s.drop_last() =~= dec_nat(n / 10));
        assert(s.last() == digit_char(d));
        assert((n / 10) * 10 + d == n);
        assert(digits_value(s.drop_last(), 10) == Some(n / 10));
        assert(digits_value(s, 10) == Some((n / 10) * 10 + d));
    }
}

/// A non-negative `i32` printed in decimal parses back to itself.
pub proof fn lemma_parse_dec_i32(n: i32)
    requires
        n >= 0,
    ensures
        parse_i32(dec_int(n as int)) == Some(n),
{
    lemma_dec_nat_digits(n as nat);
    let s = dec_nat(n as nat);
    assert(s[0] != '-' && s[0] != '+') by {
        assert('0' <= s[0] <= '9');
    }
}

/// A Unicode scalar value (what `char::from_u32` accepts).
pub open spec fn is_scalar_value(v: u32) -> bool {
    v < 0xD800 || (0xE000 <= v && v <= 0x10FFFF)
}

// ---------- Lemmas ----------

proof fn lemma_digits_prefix_le(s: Seq<char>, i: int, radix: nat)
    requires
        0 <= i <= s.len(),
        radix >= 1,
        digits_value(s, radix) is Some,
    ensures
        digits_value(s.subrange(0, i), radix) is Some,
        digits_value(s.subrange(0, i), radix)->0 <= digits_value(s, radix)->0,
    decreases s.len() - i,
{
    if i == s.len() {
        assert(s.subrange(0, i) =~= s);
    } else {
        lemma_digits_prefix_le(s, i + 1, radix);
        let t = s.subrange(0, i + 1);
        assert(t.drop_last() =~= s.subrange(0, i));
        let v = digits_value(t.drop_last(), radix)->0;
        let d = digit_val(t.last(), radix)->0;
        assert(v * radix + d >= v) by (nonlinear_arith)
            requires
                radix >= 1,
                v >= 0,
                d >= 0,
        ;
    }
}

// ---------- Executable ----------

/// `char::from_u32`.
///
/// Trusted: std documents `char::from_u32(i)` as returning `Some` exactly
/// when `i` is a Unicode scalar value, the `char` whose value is `i`.
#[verifier::external_body]
pub(crate) fn char_from_u32(v: u32) -> (r: Option<char>)
    ensures
        r is Some <==> is_scalar_value(v),
        r matches Some(c) ==> c as u32 == v,
{
    char::from_u32(v)
}

fn digit_val_exec(c: char, radix: u32) -> (r: Option<u32>)
    requires
        radix == 10 || radix == 16,
    ensures
        match r {
            Some(d) => digit_val(c, radix as nat) == Some(d as nat) && d < radix,
            None => digit_val(c, radix as nat) is None,
        },
{
    if '0' <= c && c <= '9' {
        Some((c as u32) - ('0' as u32))
    } else if radix == 16 && 'a' <= c && c <= 'f' {
        Some((c as u32) - ('a' as u32) + 10)
    } else if radix == 16 && 'A' <= c && c <= 'F' {
        Some((c as u32) - ('A' as u32) + 10)
    } else {
        None
    }
}

/// Value of `s[from..]` as digits, or `None` when a character is not a digit
/// or the value exceeds `max`.
fn digits_upto(s: &[char], from: usize, radix: u32, max: u64) -> (r: Option<u64>)
    requires
        radix == 10 || radix == 16,
        from <= s@.len(),
        max <= 0xffff_ffff,
    ensures
        match r {
            Some(v) => digits_value(s@.subrange(from as int, s@.len() as int), radix as nat)
                == Some(v as nat) && v <= max,
            None => match digits_value(s@.subrange(from as int, s@.len() as int), radix as nat) {
                Some(v) => v > max,
                None => true,
            },
        },
{
    let ghost d = s@.subrange(from as int, s@.len() as int);
    let mut v: u64 = 0;
    let mut i = from;
    assert(d.subrange(0, 0) =~= Seq::<char>::empty());
    while i < s.len()
        invariant
            radix == 10 || radix == 16,
            from <= i <= s@.len(),
            max <= 0xffff_ffff,
            v <= max,
            d == s@.subrange(from as int, s@.len() as int),
            digits_value(d.subrange(0, i - from), radix as nat) == Some(v as nat),
        decreases s.len() - i,
    {
        let ghost pre = d.subrange(0, i - from);
        let ghost pre1 = d.subrange(0, i - from + 1);
        assert(pre1.drop_last() =~= pre);
        assert(pre1.last() == s@[i as int]);
        match digit_val_exec(s[i], radix) {
            None => {
                proof {
                    if digits_value(d, radix as nat) is Some {
                        lemma_digits_prefix_le(d, i - from + 1, radix as nat);
                    }
                }
                return None;
            },
            Some(dv) => {
                assert(v * (radix as u64) <= 0xffff_ffff * 16) by (nonlinear_arith)
                    requires
                        v <= 0xffff_ffff,
                        radix <= 16,
                ;
                let nv = v * (radix as u64) + (dv as u64);
                if nv > max {
                    proof {
                        if digits_value(d, radix as nat) is Some {
                            lemma_digits_prefix_le(d, i - from + 1, radix as nat);
                        }
                    }
                    return None;
                }
                v = nv;
            },
        }
        i += 1;
    }
    assert(d.subrange(0, i - from) =~= d);
    Some(v)
}

/// `<unsigned>::from_str_radix(s, radix)` for a type whose largest value is
/// `max` (`u32` here).
pub fn parse_unsigned_exec(s: &[char], radix: u32, max: u64) -> (r: Option<u64>)
    requires
        radix == 10 || radix == 16,
        max <= 0xffff_ffff,
    ensures
        match r {
            Some(v) => parse_unsigned(s@, radix as nat, max as nat) == Some(v as nat),
            None => parse_unsigned(s@, radix as nat, max as nat) is None,
        },
{
    let from: usize = if s.len() > 0 && s[0] == '+' {
        1
    } else {
        0
    };
    assert(s@.subrange(from as int, s@.len() as int) =~= (if s@.len() > 0 && s@[0] == '+' {
        s@.drop_first()
    } else {
        s@
    }));
    if from == s.len() {
        return None;
    }
    digits_upto(s, from, radix, max)
}

/// `u32::from_str_radix(s, 16)`.
pub fn parse_hex_u32(s: &[char]) -> (r: Option<u32>)
    ensures
        match r {
            Some(v) => parse_unsigned(s@, 16, 0xffff_ffff) == Some(v as nat),
            None => parse_unsigned(s@, 16, 0xffff_ffff) is None,
        },
{
    match parse_unsigned_exec(s, 16, 0xffff_ffff) {
        Some(v) => Some(v as u32),
        None => None,
    }
}

/// `s.parse::<u32>()`.
pub fn parse_dec_u32(s: &[char]) -> (r: Option<u32>)
    ensures
        match r {
            Some(v) => parse_unsigned(s@, 10, 0xffff_ffff) == Some(v as nat),
            None => parse_unsigned(s@, 10, 0xffff_ffff) is None,
        },
{
    match parse_unsigned_exec(s, 10, 0xffff_ffff) {
        Some(v) => Some(v as u32),
        None => None,
    }
}

/// `s.parse::<i32>()`.
pub fn parse_i32_exec(s: &[char]) -> (r: Option<i32>)
    ensures
        r == parse_i32(s@),
{
    let neg = s.len() > 0 && s[0] == '-';
    let from: usize = if s.len() > 0 && (s[0] == '+' || s[0] == '-') {
        1
    } else {
        0
    };
    assert(s@.subrange(from as int, s@.len() as int) =~= (if s@.len() > 0 && (s@[0] == '+'
        || s@[0] == '-') {
        s@.drop_first()
    } else {
        s@
    }));
    if from == s.len() {
        return None;
    }
    let max: u64 = if neg {
        0x8000_0000
    } else {
        0x7fff_ffff
    };
    match digits_upto(s, from, 10, max) {
        None => None,
        Some(v) => {
            if neg {
                Some((0 - (v as i64)) as i32)
            } else {
                Some(v as i32)
            }
        },
    }
}

/// Appends the decimal digits of `n`.
pub fn push_dec_u64(out: &mut String, n: u64)
    ensures
        final(out)@ == old(out)@ + dec_nat(n as nat),
    decreases n,
{
    if n >= 10 {
        push_dec_u64(out, n / 10);
    }
    let d = (n % 10) as u8;
    let c = (48u8 + d) as char;
    assert(c == digit_char((n % 10) as nat));
    push_char(out, c);
}

/// Appends `n.to_string()`.
pub fn push_dec_i64(out: &mut String, n: i64)
    requires
        n > i64::MIN,
    ensures
        final(out)@ == old(out)@ + dec_int(n as int),
{
    if n < 0 {
        push_char(out, '-');
        push_dec_u64(out, (0 - n) as u64);
        assert(old(out)@.push('-') + dec_nat((-n) as nat) =~= old(out)@ + (seq!['-'] + dec_nat(
            (-n) as nat,
        )));
    } else {
        push_dec_u64(out, n as u64);
    }
}

/// `n.to_string()`.
pub fn i32_to_string(n: i32) -> (r: String)
    ensures
        r@ == dec_int(n as int),
{
    let mut r = String::new();
    push_dec_i64(&mut r, n as i64);
    assert(Seq::<char>::empty() + dec_int(n as int) =~= dec_int(n as int));
    r
}

} // verus!
