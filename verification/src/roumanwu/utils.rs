//! Generic utility helpers used by the roumanwu source: URL encoding, page
//! index conversion, substring extraction, MD5, Base64 and a JSON string
//! field extractor.
use vstd::prelude::*;

use crate::roumanwu::chapter;
use crate::roumanwu::detail;
use crate::text;

verus! {

// ---------- Encoding ----------

/// Bytes left as they are: ASCII letters and digits, `-`, `_`, `.`, `~`.
pub open spec fn url_safe(b: u8) -> bool {
    (0x30 <= b && b <= 0x39) || (0x41 <= b && b <= 0x5a) || (0x61 <= b && b <= 0x7a) || b == 0x2d
        || b == 0x5f || b == 0x2e || b == 0x7e
}

/// Upper-case hexadecimal digit of `d < 16`.
pub open spec fn hex_digit(d: u8) -> char {
    if d < 10 {
        ((0x30 + d) as u8) as char
    } else {
        ((0x41 + d - 10) as u8) as char
    }
}

pub open spec fn encode_byte(b: u8) -> Seq<char> {
    if url_safe(b) {
        seq![b as char]
    } else {
        seq!['%', hex_digit(b >> 4u8), hex_digit(b & 0x0f)]
    }
}

/// Percent-encoding of a byte string: safe bytes kept, every other byte as
/// `%HH`.
pub open spec fn percent_encode(b: Seq<u8>) -> Seq<char>
    decreases b.len(),
{
    if b.len() == 0 {
        Seq::empty()
    } else {
        percent_encode(b.drop_last()) + encode_byte(b.last())
    }
}

/// Value of an upper-case hexadecimal digit.
pub open spec fn hex_value(c: char) -> Option<u8> {
    if '0' <= c && c <= '9' {
        Some((c as u32 - 0x30) as u8)
    } else if 'A' <= c && c <= 'F' {
        Some((c as u32 - 0x41 + 10) as u8)
    } else {
        None
    }
}

/// Percent-decoding: `%HH` (upper-case hexadecimal) is the byte `0xHH`,
/// every other character the byte of its value.
pub open spec fn percent_decode(cs: Seq<char>) -> Seq<u8>
    decreases cs.len(),
{
    if cs.len() == 0 {
        Seq::empty()
    } else if cs[0] == '%' && cs.len() >= 3 && hex_value(cs[1]) is Some && hex_value(cs[2]) is Some {
        seq![(16 * hex_value(cs[1])->0 + hex_value(cs[2])->0) as u8] + percent_decode(
            cs.subrange(3, cs.len() as int),
        )
    } else {
        seq![cs[0] as u8] + percent_decode(cs.subrange(1, cs.len() as int))
    }
}

/// The characters an encoding is made of: the safe ones and `%`.
pub open spec fn is_encoded_char(c: char) -> bool {
    ('0' <= c && c <= '9') || ('A' <= c && c <= 'Z') || ('a' <= c && c <= 'z') || c == '-' || c
        == '_' || c == '.' || c == '~' || c == '%'
}

proof fn lemma_hex_digit(d: u8)
    requires
        d < 16,
    ensures
        hex_value(hex_digit(d)) == Some(d),
        is_encoded_char(hex_digit(d)),
{
    if d < 10 {
        assert(hex_digit(d) as u32 == 0x30 + d);
    } else {
        assert(hex_digit(d) as u32 == 0x41 + d - 10);
    }
}

proof fn lemma_decode_byte(x: u8, t: Seq<char>)
    ensures
        percent_decode(encode_byte(x) + t) == seq![x] + percent_decode(t),
        forall|i: int| 0 <= i < encode_byte(x).len() ==> is_encoded_char(#[trigger] encode_byte(x)[i]),
{
    let e = encode_byte(x) + t;
    if url_safe(x) {
        assert((x as char) as u8 == x);
        assert(e[0] == x as char);
        assert(e.subrange(1, e.len() as int) =~= t);
    } else {
        let hi = x >> 4u8;
        let lo = x & 0x0f;
        assert((x >> 4u8) < 16 && (x & 0x0f) < 16 && 16 * (x >> 4u8) + (x & 0x0f) == x)
            by (bit_vector);
        lemma_hex_digit(hi);
        lemma_hex_digit(lo);
        assert(e[0] == '%' && e[1] == hex_digit(hi) && e[2] == hex_digit(lo));
        assert(e.subrange(3, e.len() as int) =~= t);
    }
}

proof fn lemma_decode_prefix(b: Seq<u8>, t: Seq<char>)
    ensures
        percent_decode(percent_encode(b) + t) == b + percent_decode(t),
        forall|i: int|
            0 <= i < percent_encode(b).len() ==> is_encoded_char(#[trigger] percent_encode(b)[i]),
    decreases b.len(),
{
    if b.len() == 0 {
        assert(percent_encode(b) + t =~= t);
        assert(b + percent_decode(t) =~= percent_decode(t));
    } else {
        let p = b.drop_last();
        let x = b.last();
        lemma_decode_byte(x, t);
        lemma_decode_prefix(p, encode_byte(x) + t);
        assert(percent_encode(b) + t =~= percent_encode(p) + (encode_byte(x) + t));
        assert(b =~= p + seq![x]);
        assert(p + (seq![x] + percent_decode(t)) =~= b + percent_decode(t));
        let pe = percent_encode(b);
        assert forall|i: int| 0 <= i < pe.len() implies is_encoded_char(#[trigger] pe[i]) by {
            if i < percent_encode(p).len() {
                assert(pe[i] == percent_encode(p)[i]);
            } else {
                assert(pe[i] == encode_byte(x)[i - percent_encode(p).len()]);
            }
        }
    }
}

/// Percent-decoding gives back the bytes that were encoded, and an
/// encoding consists only of unreserved characters and `%` escapes.
pub proof fn law_percent_encoding_round_trip(b: Seq<u8>)
    ensures
        percent_decode(percent_encode(b)) == b,
        forall|i: int|
            0 <= i < percent_encode(b).len() ==> is_encoded_char(#[trigger] percent_encode(b)[i]),
{
    lemma_decode_prefix(b, Seq::empty());
    assert(percent_encode(b) + Seq::<char>::empty() =~= percent_encode(b));
    assert(b + percent_decode(Seq::<char>::empty()) =~= b);
}

fn hex_digit_exec(d: u8) -> (c: char)
    requires
        d < 16,
    ensures
        c == hex_digit(d),
{
    if d < 10 {
        (0x30 + d) as char
    } else {
        (0x41 + d - 10) as char
    }
}

/// Percent-encode `s` (its UTF-8 bytes) for a query parameter.
pub fn urlencode(s: &str) -> (out: String)
    ensures
        out@ == percent_encode(vstd::utf8::encode_utf8(s@)),
{
    let bytes = s.as_bytes();
    let ghost b = bytes@;
    let mut out = String::new();
    let mut i: usize = 0;
    assert(b.subrange(0, 0) =~= Seq::<u8>::empty());
    while i < bytes.len()
        invariant
            b == bytes@,
            i <= b.len(),
            out@ == percent_encode(b.subrange(0, i as int)),
        decreases bytes.len() - i,
    {
        let x = bytes[i];
        assert(b.subrange(0, i + 1).drop_last() =~= b.subrange(0, i as int));
        let safe = (0x30 <= x && x <= 0x39) || (0x41 <= x && x <= 0x5a) || (0x61 <= x && x <= 0x7a)
            || x == 0x2d || x == 0x5f || x == 0x2e || x == 0x7e;
        let ghost before = out@;
        if safe {
            text::push_char(&mut out, x as char);
        } else {
            assert(x >> 4u8 < 16 && x & 0x0f < 16) by (bit_vector);
            text::push_char(&mut out, '%');
            text::push_char(&mut out, hex_digit_exec(x >> 4u8));
            text::push_char(&mut out, hex_digit_exec(x & 0x0f));
        }
        assert(out@ =~= before + encode_byte(x));
        i += 1;
    }
    assert(b.subrange(0, b.len() as int) =~= b);
    out
}

/// The site's 0-based page index for the app's 1-based page (pages below 1
/// map to 0).
pub open spec fn spec_site_page(page: i32) -> i32 {
    if page < 1 {
        0
    } else {
        (page - 1) as i32
    }
}

/// The site's 0-based page index for the app's 1-based `page`.
pub fn site_page(page: i32) -> (r: i32)
    ensures
        r == spec_site_page(page),
        0 <= r < i32::MAX,
{
    if page < 1 {
        0
    } else {
        page - 1
    }
}

// ---------- Substrings ----------

/// The URL of a `url("…")` in an inline style (after `&quot;` is decoded).
pub open spec fn style_url(style: Seq<char>) -> Option<Seq<char>> {
    let s = text::replace(style, "&quot;"@, "\""@);
    match text::spec_find(s, "url(\""@) {
        None => None,
        Some(p) => {
            let rest = s.subrange(p + 5, s.len() as int);
            match text::spec_find(rest, seq!['"']) {
                None => None,
                Some(e) => Some(rest.subrange(0, e)),
            }
        },
    }
}

/// Extract the URL of a `background-image:url("…")` style.
pub fn extract_url_from_style(style: &str) -> (r: Option<String>)
    ensures
        text::opt_view(r) == style_url(style@),
{
    proof {
        reveal_strlit("&quot;");
        reveal_strlit("url(\"");
    }
    let cs = text::to_chars(style);
    let from = text::to_chars("&quot;");
    let to = text::to_chars("\"");
    let s = text::replace_chars(cs.as_slice(), from.as_slice(), to.as_slice());
    let open = text::to_chars("url(\"");
    proof {
        text::lemma_find_from(s@, open@, 0);
    }
    let n = s.len();
    let start = match text::find_exec(s.as_slice(), open.as_slice()) {
        None => {
            return None;
        },
        Some(p) => {
            assert(p + 5 <= n);
            p + 5
        },
    };
    let rest = text::sub_chars(s.as_slice(), start, n);
    let quote = ['"'];
    assert(quote@ == seq!['"']);
    proof {
        text::lemma_find_from(rest@, quote@, 0);
    }
    match text::find_exec(rest.as_slice(), &quote) {
        None => None,
        Some(e) => Some(text::string_of(rest.as_slice(), 0, e)),
    }
}

/// The text between the first `start` and the first `end` after it.
pub open spec fn between(html: Seq<char>, start: Seq<char>, end: Seq<char>) -> Option<Seq<char>> {
    match text::spec_find(html, start) {
        None => None,
        Some(p) => {
            let s = p + start.len();
            match text::spec_find(html.subrange(s, html.len() as int), end) {
                None => None,
                Some(e) => Some(html.subrange(s, s + e)),
            }
        },
    }
}

/// The part of `html` between the first `start` and the first `end` that
/// follows it.
pub fn slice_between<'a>(html: &'a str, start: &str, end: &str) -> (r: Option<&'a str>)
    ensures
        match r {
            Some(x) => between(html@, start@, end@) == Some(x@),
            None => between(html@, start@, end@) is None,
        },
{
    let cs = text::to_chars(html);
    let sc = text::to_chars(start);
    let ec = text::to_chars(end);
    proof {
        text::lemma_find_from(cs@, sc@, 0);
    }
    let n = cs.len();
    let s = match text::find_exec(cs.as_slice(), sc.as_slice()) {
        None => {
            return None;
        },
        Some(p) => {
            assert(p + sc@.len() <= n);
            p + sc.len()
        },
    };
    let rest = text::sub_chars(cs.as_slice(), s, n);
    proof {
        text::lemma_find_from(rest@, ec@, 0);
    }
    match text::find_exec(rest.as_slice(), ec.as_slice()) {
        None => None,
        Some(e) => {
            assert(s + e <= n);
            assert(html@.subrange(s as int, s + e) =~= rest@.subrange(0, e as int));
            Some(html.substring_char(s, s + e))
        },
    }
}

// ---------- JSON ----------

/// JSON unescaping as the general helper does it: simple escapes,
/// `\uXXXX` (up to four characters), any other escape kept with its
/// backslash, and a trailing lone backslash kept.
pub open spec fn unescape_keep(cs: Seq<char>, i: int, out: Seq<char>) -> Seq<char>
    decreases cs.len() - i,
{
    if i < 0 || i >= cs.len() {
        out
    } else if cs[i] != '\\' {
        unescape_keep(cs, i + 1, out.push(cs[i]))
    } else if i + 1 >= cs.len() {
        out.push('\\')
    } else {
        let n = cs[i + 1];
        match chapter::simple_escape(n) {
            Some(e) => unescape_keep(cs, i + 2, out.push(e)),
            None => if n == 'u' {
                let end = if cs.len() < i + 6 {
                    cs.len() as int
                } else {
                    i + 6
                };
                unescape_keep(
                    cs,
                    end,
                    chapter::push_opt(out, chapter::hex_char(cs.subrange(i + 2, end))),
                )
            } else {
                unescape_keep(cs, i + 2, out.push('\\').push(n))
            },
        }
    }
}

/// The first `"key":"…"` string value in `haystack`, unescaped; `None` when
/// missing, empty or unterminated.
pub open spec fn string_field(haystack: Seq<char>, key: Seq<char>) -> Option<Seq<char>> {
    match text::spec_find(haystack, detail::field_needle(key)) {
        None => None,
        Some(p) => {
            let rest = haystack.subrange(p + detail::field_needle(key).len(), haystack.len() as int);
            let e = detail::closing_quote(rest, 0);
            if e == 0 || e >= rest.len() {
                None
            } else {
                Some(unescape_keep(rest.subrange(0, e), 0, Seq::empty()))
            }
        },
    }
}

fn unescape_keep_exec(cs: &[char]) -> (out: Vec<char>)
    ensures
        out@ == unescape_keep(cs@, 0, Seq::empty()),
{
    let mut out: Vec<char> = Vec::new();
    let n = cs.len();
    let mut i: usize = 0;
    while i < n
        invariant
            n == cs@.len(),
            i <= n,
            unescape_keep(cs@, i as int, out@) == unescape_keep(cs@, 0, Seq::empty()),
        decreases n - i,
    {
        let c = cs[i];
        if c != '\\' {
            out.push(c);
            i += 1;
        } else if i + 1 >= n {
            out.push('\\');
            return out;
        } else {
            let nx = cs[i + 1];
            match chapter::simple_escape_exec(nx) {
                Some(e) => {
                    out.push(e);
                    i += 2;
                },
                None => {
                    if nx == 'u' {
                        let end = if n - i < 6 {
                            n
                        } else {
                            i + 6
                        };
                        let hex = text::sub_chars(cs, i + 2, end);
                        if let Some(h) = chapter::hex_char_exec(hex.as_slice()) {
                            out.push(h);
                        }
                        i = end;
                    } else {
                        out.push('\\');
                        out.push(nx);
                        i += 2;
                    }
                },
            }
        }
    }
    out
}

/// Extract the string value of `"key":"…"` from a JSON text, handling
/// escaped quotes and escape sequences.
pub fn json_string(haystack: &str, key: &str) -> (r: Option<String>)
    ensures
        text::opt_view(r) == string_field(haystack@, key@),
{
    let cs = text::to_chars(haystack);
    let mut needle: Vec<char> = Vec::new();
    needle.push('"');
    let kcs = text::to_chars(key);
    text::extend_chars(&mut needle, kcs.as_slice(), 0, kcs.len());
    let tail = text::to_chars("\":\"");
    text::extend_chars(&mut needle, tail.as_slice(), 0, tail.len());
    assert(kcs@.subrange(0, kcs@.len() as int) =~= kcs@);
    assert(tail@.subrange(0, tail@.len() as int) =~= tail@);
    assert(needle@ =~= detail::field_needle(key@));
    proof {
        text::lemma_find_from(cs@, needle@, 0);
    }
    let n = cs.len();
    let start = match text::find_exec(cs.as_slice(), needle.as_slice()) {
        None => {
            return None;
        },
        Some(p) => {
            assert(p + needle@.len() <= n);
            p + needle.len()
        },
    };
    let rest = text::sub_chars(cs.as_slice(), start, n);
    let end = detail::closing_quote_exec(rest.as_slice());
    if end == 0 || end >= rest.len() {
        return None;
    }
    let raw = text::sub_chars(rest.as_slice(), 0, end);
    let out = unescape_keep_exec(raw.as_slice());
    Some(text::string_of(out.as_slice(), 0, out.len()))
}

// ---------- MD5 (RFC 1321) ----------

/// The per-step additive constants `K[t]`.
pub open spec fn md5_k_table() -> Seq<u32> {
    seq![
        0xD76AA478u32, 0xE8C7B756, 0x242070DB, 0xC1BDCEEE, 0xF57C0FAF, 0x4787C62A, 0xA8304613, 0xFD469501,
        0x698098D8, 0x8B44F7AF, 0xFFFF5BB1, 0x895CD7BE, 0x6B901122, 0xFD987193, 0xA679438E, 0x49B40821,
        0xF61E2562, 0xC040B340, 0x265E5A51, 0xE9B6C7AA, 0xD62F105D, 0x02441453, 0xD8A1E681, 0xE7D3FBC8,
        0x21E1CDE6, 0xC33707D6, 0xF4D50D87, 0x455A14ED, 0xA9E3E905, 0xFCEFA3F8, 0x676F02D9, 0x8D2A4C8A,
        0xFFFA3942, 0x8771F681, 0x6D9D6122, 0xFDE5380C, 0xA4BEEA44, 0x4BDECFA9, 0xF6BB4B60, 0xBEBFBC70,
        0x289B7EC6, 0xEAA127FA, 0xD4EF3085, 0x04881D05, 0xD9D4D039, 0xE6DB99E5, 0x1FA27CF8, 0xC4AC5665,
        0xF4292244, 0x432AFF97, 0xAB9423A7, 0xFC93A039, 0x655B59C3, 0x8F0CCC92, 0xFFEFF47D, 0x85845DD1,
        0x6FA87E4F, 0xFE2CE6E0, 0xA3014314, 0x4E0811A1, 0xF7537E82, 0xBD3AF235, 0x2AD7D2BB, 0xEB86D391,
    ]
}

/// The per-round left-rotation amounts.
pub open spec fn md5_s(t: int) -> u32 {
    let r = t / 16;
    let j = t % 4;
    if r == 0 {
        if j == 0 { 7 } else if j == 1 { 12 } else if j == 2 { 17 } else { 22 }
    } else if r == 1 {
        if j == 0 { 5 } else if j == 1 { 9 } else if j == 2 { 14 } else { 20 }
    } else if r == 2 {
        if j == 0 { 4 } else if j == 1 { 11 } else if j == 2 { 16 } else { 23 }
    } else {
        if j == 0 { 6 } else if j == 1 { 10 } else if j == 2 { 15 } else { 21 }
    }
}

/// Index of the message word used in step `t`.
pub open spec fn md5_g(t: int) -> int {
    if t < 16 {
        t
    } else if t < 32 {
        (5 * t + 1) % 16
    } else if t < 48 {
        (3 * t + 5) % 16
    } else {
        (7 * t) % 16
    }
}

/// The auxiliary function of step `t` (F, G, H, I per round).
pub open spec fn md5_f(t: int, b: u32, c: u32, d: u32) -> u32 {
    if t < 16 {
        (b & c) | (!b & d)
    } else if t < 32 {
        (d & b) | (!d & c)
    } else if t < 48 {
        b ^ c ^ d
    } else {
        c ^ (b | !d)
    }
}

pub open spec fn rotl(x: u32, s: u32) -> u32 {
    (x << s) | (x >> ((32 - s) as u32))
}

/// One step: `(a, b, c, d) -> (d, b + ((a + F + K[t] + M[g]) <<< s), b, c)`.
pub open spec fn md5_step(st: (u32, u32, u32, u32), t: int, w: Seq<u32>) -> (u32, u32, u32, u32) {
    let (a, b, c, d) = st;
    let x = a.wrapping_add(md5_f(t, b, c, d)).wrapping_add(md5_k_table()[t]).wrapping_add(
        w[md5_g(t)],
    );
    (d, b.wrapping_add(rotl(x, md5_s(t))), b, c)
}

/// The state after the first `n` steps on message words `w`.
pub open spec fn md5_steps(st: (u32, u32, u32, u32), w: Seq<u32>, n: nat) -> (u32, u32, u32, u32)
    decreases n,
{
    if n == 0 {
        st
    } else {
        md5_step(md5_steps(st, w, (n - 1) as nat), n - 1, w)
    }
}

/// Little-endian word from four bytes.
pub open spec fn le_word(b0: u8, b1: u8, b2: u8, b3: u8) -> u32 {
    (b0 as u32) | ((b1 as u32) << 8u32) | ((b2 as u32) << 16u32) | ((b3 as u32) << 24u32)
}

/// The sixteen little-endian words of a 64-byte block.
pub open spec fn block_words(blk: Seq<u8>) -> Seq<u32> {
    Seq::new(16, |i: int| le_word(blk[4 * i], blk[4 * i + 1], blk[4 * i + 2], blk[4 * i + 3]))
}

/// Compression of one block into the chaining state.
pub open spec fn md5_compress(h: (u32, u32, u32, u32), blk: Seq<u8>) -> (u32, u32, u32, u32) {
    let (a, b, c, d) = md5_steps(h, block_words(blk), 64);
    (h.0.wrapping_add(a), h.1.wrapping_add(b), h.2.wrapping_add(c), h.3.wrapping_add(d))
}

/// The chaining state after the first `n` 64-byte blocks of `msg`.
pub open spec fn md5_blocks(msg: Seq<u8>, n: nat) -> (u32, u32, u32, u32)
    decreases n,
{
    if n == 0 {
        (0x67452301u32, 0xEFCDAB89u32, 0x98BADCFEu32, 0x10325476u32)
    } else {
        md5_compress(
            md5_blocks(msg, (n - 1) as nat),
            msg.subrange(64 * (n - 1), 64 * n as int),
        )
    }
}

/// Number of zero bytes after the `0x80` marker: the least count that makes
/// the length congruent to 56 modulo 64.
pub open spec fn md5_zero_count(len: nat) -> nat {
    let r = (len + 1) % 64;
    if r <= 56 {
        (56 - r) as nat
    } else {
        (120 - r) as nat
    }
}

pub open spec fn le_bytes_u32(x: u32) -> Seq<u8> {
    seq![x as u8, (x >> 8u32) as u8, (x >> 16u32) as u8, (x >> 24u32) as u8]
}

pub open spec fn le_bytes_u64(x: u64) -> Seq<u8> {
    seq![
        x as u8,
        (x >> 8u64) as u8,
        (x >> 16u64) as u8,
        (x >> 24u64) as u8,
        (x >> 32u64) as u8,
        (x >> 40u64) as u8,
        (x >> 48u64) as u8,
        (x >> 56u64) as u8,
    ]
}

/// The padded message: data, `0x80`, zeros, and the bit length as a
/// little-endian 64-bit integer.
pub open spec fn md5_padded(data: Seq<u8>) -> Seq<u8> {
    data + seq![0x80u8] + Seq::new(md5_zero_count(data.len()), |i: int| 0u8) + le_bytes_u64(
        (data.len() * 8) as u64,
    )
}

/// The MD5 digest of `data`.
pub open spec fn md5(data: Seq<u8>) -> Seq<u8> {
    let msg = md5_padded(data);
    let h = md5_blocks(msg, msg.len() / 64);
    le_bytes_u32(h.0) + le_bytes_u32(h.1) + le_bytes_u32(h.2) + le_bytes_u32(h.3)
}

fn md5_k_exec(t: usize) -> (r: u32)
    requires
        t < 64,
    ensures
        r == md5_k_table()[t as int],
{
    let k: [u32; 64] = [
        0xD76AA478, 0xE8C7B756, 0x242070DB, 0xC1BDCEEE, 0xF57C0FAF, 0x4787C62A, 0xA8304613, 0xFD469501,
        0x698098D8, 0x8B44F7AF, 0xFFFF5BB1, 0x895CD7BE, 0x6B901122, 0xFD987193, 0xA679438E, 0x49B40821,
        0xF61E2562, 0xC040B340, 0x265E5A51, 0xE9B6C7AA, 0xD62F105D, 0x02441453, 0xD8A1E681, 0xE7D3FBC8,
        0x21E1CDE6, 0xC33707D6, 0xF4D50D87, 0x455A14ED, 0xA9E3E905, 0xFCEFA3F8, 0x676F02D9, 0x8D2A4C8A,
        0xFFFA3942, 0x8771F681, 0x6D9D6122, 0xFDE5380C, 0xA4BEEA44, 0x4BDECFA9, 0xF6BB4B60, 0xBEBFBC70,
        0x289B7EC6, 0xEAA127FA, 0xD4EF3085, 0x04881D05, 0xD9D4D039, 0xE6DB99E5, 0x1FA27CF8, 0xC4AC5665,
        0xF4292244, 0x432AFF97, 0xAB9423A7, 0xFC93A039, 0x655B59C3, 0x8F0CCC92, 0xFFEFF47D, 0x85845DD1,
        0x6FA87E4F, 0xFE2CE6E0, 0xA3014314, 0x4E0811A1, 0xF7537E82, 0xBD3AF235, 0x2AD7D2BB, 0xEB86D391,
    ];
    assert(k@ =~= md5_k_table());
    k[t]
}

fn md5_s_exec(t: usize) -> (r: u32)
    requires
        t < 64,
    ensures
        r == md5_s(t as int),
        4 <= r <= 23,
{
    let r = t / 16;
    let j = t % 4;
    if r == 0 {
        if j == 0 { 7 } else if j == 1 { 12 } else if j == 2 { 17 } else { 22 }
    } else if r == 1 {
        if j == 0 { 5 } else if j == 1 { 9 } else if j == 2 { 14 } else { 20 }
    } else if r == 2 {
        if j == 0 { 4 } else if j == 1 { 11 } else if j == 2 { 16 } else { 23 }
    } else {
        if j == 0 { 6 } else if j == 1 { 10 } else if j == 2 { 15 } else { 21 }
    }
}

/// The padded message of `data`.
fn md5_pad(data: &[u8]) -> (msg: Vec<u8>)
    requires
        data@.len() < 0x2000_0000_0000_0000,
    ensures
        msg@ == md5_padded(data@),
        msg@.len() % 64 == 0,
{
    let data_len = data.len();
    let bit_len = (data_len as u64) * 8;
    let mut msg: Vec<u8> = Vec::new();
    msg.extend_from_slice(data);
    msg.push(0x80);
    let rem = (data_len % 64 + 1) % 64;
    let zeros: usize = if rem <= 56 { 56 - rem } else { 120 - rem };
    assert(zeros == md5_zero_count(data@.len()));
    let mut z: usize = 0;
    while z < zeros
        invariant
            z <= zeros,
            msg@ == data@ + seq![0x80u8] + Seq::new(z as nat, |i: int| 0u8),
        decreases zeros - z,
    {
        msg.push(0);
        assert(data@ + seq![0x80u8] + Seq::new((z + 1) as nat, |i: int| 0u8) =~= (data@ + seq![
            0x80u8,
        ] + Seq::new(z as nat, |i: int| 0u8)).push(0u8));
        z += 1;
    }
    let ghost pre = msg@;
    msg.push(bit_len as u8);
    msg.push((bit_len >> 8u64) as u8);
    msg.push((bit_len >> 16u64) as u8);
    msg.push((bit_len >> 24u64) as u8);
    msg.push((bit_len >> 32u64) as u8);
    msg.push((bit_len >> 40u64) as u8);
    msg.push((bit_len >> 48u64) as u8);
    msg.push((bit_len >> 56u64) as u8);
    assert(msg@ =~= pre + le_bytes_u64(bit_len));
    assert(msg@ =~= md5_padded(data@));
    msg
}

/// The sixteen words of the block of `msg` starting at `base`.
fn md5_words(msg: &Vec<u8>, base: usize) -> (w: [u32; 16])
    requires
        base + 64 <= msg@.len(),
    ensures
        w@ == block_words(msg@.subrange(base as int, base + 64)),
{
    let ghost chunk = msg@.subrange(base as int, base + 64);
    let mut w = [0u32; 16];
    let mut i: usize = 0;
    let n = msg.len();
    while i < 16
        invariant
            n == msg@.len(),
            base + 64 <= msg@.len(),
            chunk == msg@.subrange(base as int, base + 64),
            i <= 16,
            forall|j: int| 0 <= j < i ==> w@[j] == block_words(chunk)[j],
        decreases 16 - i,
    {
        let b0 = msg[base + i * 4];
        let b1 = msg[base + i * 4 + 1];
        let b2 = msg[base + i * 4 + 2];
        let b3 = msg[base + i * 4 + 3];
        w[i] = (b0 as u32) | ((b1 as u32) << 8u32) | ((b2 as u32) << 16u32) | ((b3 as u32)
            << 24u32);
        i += 1;
    }
    assert(w@ =~= block_words(chunk));
    w
}

/// The 64 steps of one block.
fn md5_rounds(h: (u32, u32, u32, u32), w: &[u32; 16]) -> (r: (u32, u32, u32, u32))
    ensures
        r == md5_steps(h, w@, 64),
{
    let (mut a, mut b, mut c, mut d) = h;
    let mut t: usize = 0;
    while t < 64
        invariant
            t <= 64,
            (a, b, c, d) == md5_steps(h, w@, t as nat),
        decreases 64 - t,
    {
        let f = if t < 16 {
            (b & c) | (!b & d)
        } else if t < 32 {
            (d & b) | (!d & c)
        } else if t < 48 {
            b ^ c ^ d
        } else {
            c ^ (b | !d)
        };
        let g = if t < 16 {
            t
        } else if t < 32 {
            (5 * t + 1) % 16
        } else if t < 48 {
            (3 * t + 5) % 16
        } else {
            (7 * t) % 16
        };
        let s = md5_s_exec(t);
        let x = a.wrapping_add(f).wrapping_add(md5_k_exec(t)).wrapping_add(w[g]);
        let rot = (x << s) | (x >> (32 - s));
        let temp = d;
        d = c;
        c = b;
        b = b.wrapping_add(rot);
        a = temp;
        t += 1;
    }
    (a, b, c, d)
}

fn le_bytes_exec(x: u32, out: &mut [u8; 16], at: usize)
    requires
        at + 4 <= 16,
    ensures
        final(out)@ == old(out)@.subrange(0, at as int) + le_bytes_u32(x) + old(out)@.subrange(
            at + 4,
            16,
        ),
{
    out[at] = x as u8;
    out[at + 1] = (x >> 8u32) as u8;
    out[at + 2] = (x >> 16u32) as u8;
    out[at + 3] = (x >> 24u32) as u8;
    assert(out@ =~= old(out)@.subrange(0, at as int) + le_bytes_u32(x) + old(out)@.subrange(
        at + 4,
        16,
    ));
}

/// The MD5 digest of `data`.
pub fn md5_hash(data: &[u8]) -> (r: [u8; 16])
    requires
        data@.len() < 0x2000_0000_0000_0000,
    ensures
        r@ == md5(data@),
{
    let msg = md5_pad(data);
    let ghost padded = msg@;
    let mut h: (u32, u32, u32, u32) = (0x67452301, 0xEFCDAB89, 0x98BADCFE, 0x10325476);
    let total = msg.len();
    let nblocks = total / 64;
    let mut blk: usize = 0;
    while blk < nblocks
        invariant
            total == padded.len(),
            msg@ == padded,
            nblocks == padded.len() / 64,
            blk <= nblocks,
            h == md5_blocks(padded, blk as nat),
        decreases nblocks - blk,
    {
        assert(blk * 64 + 64 <= padded.len()) by (nonlinear_arith)
            requires
                blk < nblocks,
                nblocks == padded.len() / 64,
        ;
        let w = md5_words(&msg, blk * 64);
        let (a, b, c, d) = md5_rounds(h, &w);
        h = (h.0.wrapping_add(a), h.1.wrapping_add(b), h.2.wrapping_add(c), h.3.wrapping_add(d));
        blk += 1;
    }
    let mut result = [0u8; 16];
    le_bytes_exec(h.0, &mut result, 0);
    le_bytes_exec(h.1, &mut result, 4);
    le_bytes_exec(h.2, &mut result, 8);
    le_bytes_exec(h.3, &mut result, 12);
    assert(result@ =~= le_bytes_u32(h.0) + le_bytes_u32(h.1) + le_bytes_u32(h.2) + le_bytes_u32(
        h.3,
    ));
    result
}

// ---------- Base64 ----------

/// Position of `c` in the alphabet `A-Z a-z 0-9 + /`.
pub open spec fn b64_val(c: char) -> Option<u32> {
    if 'A' <= c && c <= 'Z' {
        Some((c as u32 - 'A' as u32) as u32)
    } else if 'a' <= c && c <= 'z' {
        Some((c as u32 - 'a' as u32 + 26) as u32)
    } else if '0' <= c && c <= '9' {
        Some((c as u32 - '0' as u32 + 52) as u32)
    } else if c == '+' {
        Some(62)
    } else if c == '/' {
        Some(63)
    } else {
        None
    }
}

/// Sextets of the alphabet characters among the first `i` characters.
pub open spec fn sextets_upto(cs: Seq<char>, i: int) -> Seq<u32>
    decreases i,
{
    if i <= 0 {
        Seq::empty()
    } else {
        match b64_val(cs[i - 1]) {
            Some(v) => sextets_upto(cs, i - 1).push(v),
            None => sextets_upto(cs, i - 1),
        }
    }
}

/// The sextets an input carries: its alphabet characters before the first
/// `=`, other characters skipped.
pub open spec fn b64_sextets(cs: Seq<char>) -> Seq<u32> {
    match text::spec_find(cs, seq!['=']) {
        Some(e) => sextets_upto(cs, e),
        None => sextets_upto(cs, cs.len() as int),
    }
}

/// Number of whole bytes carried by `n` sextets.
pub open spec fn b64_out_len(n: nat) -> nat {
    3 * (n / 4) + (if n % 4 == 3 {
        2nat
    } else if n % 4 == 2 {
        1nat
    } else {
        0nat
    })
}

/// Byte `k` of the decoding: byte `k % 3` of group `k / 3` of four sextets.
pub open spec fn b64_byte(sx: Seq<u32>, k: int) -> u8 {
    let g = 4 * (k / 3);
    let r = k % 3;
    if r == 0 {
        ((sx[g] << 2u32) | (sx[g + 1] >> 4u32)) as u8
    } else if r == 1 {
        (((sx[g + 1] & 0xf) << 4u32) | (sx[g + 2] >> 2u32)) as u8
    } else {
        (((sx[g + 2] & 3) << 6u32) | sx[g + 3]) as u8
    }
}

/// RFC 4648 decoding of a sextet stream; a trailing partial byte is dropped.
pub open spec fn b64_decode_sextets(sx: Seq<u32>) -> Seq<u8> {
    Seq::new(b64_out_len(sx.len()), |k: int| b64_byte(sx, k))
}

/// What `base64_decode` returns for the characters `cs`.
pub open spec fn base64_decoded(cs: Seq<char>) -> Seq<u8> {
    b64_decode_sextets(b64_sextets(cs))
}

/// The alphabet character of a sextet `v < 64`.
pub open spec fn b64_char(v: u32) -> char {
    if v < 26 {
        (0x41 + v) as char
    } else if v < 52 {
        (0x61 + v - 26) as char
    } else if v < 62 {
        (0x30 + v - 52) as char
    } else if v == 62 {
        '+'
    } else {
        '/'
    }
}

/// Byte `k` of `b` as a `u32`, 0 past its end.
pub open spec fn byte_or_zero(b: Seq<u8>, k: int) -> u32 {
    if 0 <= k < b.len() {
        b[k] as u32
    } else {
        0
    }
}

/// Sextet `j` of the standard encoding of `b`: sextet `j % 4` of the three
/// bytes of group `j / 4` (missing bytes read as zero).
pub open spec fn enc_sextet(b: Seq<u8>, j: int) -> u32 {
    let q = j / 4;
    let b0 = byte_or_zero(b, 3 * q);
    let b1 = byte_or_zero(b, 3 * q + 1);
    let b2 = byte_or_zero(b, 3 * q + 2);
    if j % 4 == 0 {
        b0 >> 2u32
    } else if j % 4 == 1 {
        ((b0 & 3) << 4u32) | (b1 >> 4u32)
    } else if j % 4 == 2 {
        ((b1 & 0xf) << 2u32) | (b2 >> 6u32)
    } else {
        b2 & 0x3f
    }
}

/// Number of characters of the unpadded encoding of `n` bytes.
pub open spec fn enc_len(n: nat) -> nat {
    4 * (n / 3) + (if n % 3 == 1 {
        2nat
    } else if n % 3 == 2 {
        3nat
    } else {
        0nat
    })
}

/// Standard Base64 (RFC 4648) encoding of `b`, without `=` padding.
pub open spec fn base64_encode(b: Seq<u8>) -> Seq<char> {
    Seq::new(enc_len(b.len()), |j: int| b64_char(enc_sextet(b, j)))
}

/// The `=` padding that completes the encoding of `n` bytes to a multiple of
/// four characters.
pub open spec fn b64_padding(n: nat) -> Seq<char> {
    if n % 3 == 1 {
        seq!['=', '=']
    } else if n % 3 == 2 {
        seq!['=']
    } else {
        Seq::empty()
    }
}

proof fn lemma_b64_char(v: u32)
    requires
        v < 64,
    ensures
        b64_val(b64_char(v)) == Some(v),
        b64_char(v) != '=',
{
    if v < 26 {
        assert(b64_char(v) as u32 == 0x41 + v);
    } else if v < 52 {
        assert(b64_char(v) as u32 == 0x61 + v - 26);
    } else if v < 62 {
        assert(b64_char(v) as u32 == 0x30 + v - 52);
    }
}

proof fn lemma_enc_sextet_small(b: Seq<u8>, j: int)
    ensures
        enc_sextet(b, j) < 64,
{
    let q = j / 4;
    let b0 = byte_or_zero(b, 3 * q);
    let b1 = byte_or_zero(b, 3 * q + 1);
    let b2 = byte_or_zero(b, 3 * q + 2);
    assert(b0 < 256 && b1 < 256 && b2 < 256);
    assert((b0 >> 2u32) < 64 && (((b0 & 3) << 4u32) | (b1 >> 4u32)) < 64 && (((b1 & 0xf) << 2u32)
        | (b2 >> 6u32)) < 64 && (b2 & 0x3f) < 64) by (bit_vector)
        requires
            b0 < 256,
            b1 < 256,
            b2 < 256,
    ;
}

proof fn lemma_sextets_all(cs: Seq<char>, i: int, sx: Seq<u32>)
    requires
        0 <= i <= cs.len(),
        sx.len() >= i,
        forall|k: int| 0 <= k < i ==> b64_val(#[trigger] cs[k]) == Some(sx[k]),
    ensures
        sextets_upto(cs, i) == sx.subrange(0, i),
    decreases i,
{
    if i > 0 {
        lemma_sextets_all(cs, i - 1, sx);
        assert(sx.subrange(0, i) =~= sx.subrange(0, i - 1).push(sx[i - 1]));
    } else {
        assert(sx.subrange(0, 0) =~= Seq::<u32>::empty());
    }
}

proof fn lemma_group_bytes(b0: u32, b1: u32, b2: u32)
    by (bit_vector)
    requires
        b0 < 256,
        b1 < 256,
        b2 < 256,
    ensures
        (((b0 >> 2u32) << 2u32) | ((((b0 & 3) << 4u32) | (b1 >> 4u32)) >> 4u32)) as u8 == b0 as u8,
        ((((((b0 & 3) << 4u32) | (b1 >> 4u32)) & 0xf) << 4u32) | ((((b1 & 0xf) << 2u32) | (b2
            >> 6u32)) >> 2u32)) as u8 == b1 as u8,
        ((((((b1 & 0xf) << 2u32) | (b2 >> 6u32)) & 3) << 6u32) | (b2 & 0x3f)) as u8 == b2 as u8,
{
}

proof fn lemma_decode_encoded(b: Seq<u8>, sx: Seq<u32>)
    requires
        sx.len() == enc_len(b.len()),
        forall|j: int| 0 <= j < sx.len() ==> #[trigger] sx[j] == enc_sextet(b, j),
    ensures
        b64_decode_sextets(sx) == b,
{
    let n = b.len();
    let m = sx.len();
    let q = n / 3;
    let t: nat = if n % 3 == 1 {
        2
    } else if n % 3 == 2 {
        3
    } else {
        0
    };
    assert(m == 4 * q + t);
    assert(m / 4 == q && m % 4 == t) by (nonlinear_arith)
        requires
            m == 4 * q + t,
            t < 4,
    ;
    assert(b64_out_len(m) == n);
    let d = b64_decode_sextets(sx);
    assert forall|k: int| 0 <= k < n implies #[trigger] d[k] == b[k] by {
        let p = k / 3;
        let g = 4 * p;
        assert(g / 4 == p && (g + 1) / 4 == p && (g + 2) / 4 == p && (g + 3) / 4 == p);
        assert(g % 4 == 0 && (g + 1) % 4 == 1 && (g + 2) % 4 == 2 && (g + 3) % 4 == 3);
        assert(p <= q);
        let b0 = byte_or_zero(b, 3 * p);
        let b1 = byte_or_zero(b, 3 * p + 1);
        let b2 = byte_or_zero(b, 3 * p + 2);
        lemma_group_bytes(b0, b1, b2);
        if k % 3 == 0 {
            assert(g + 1 < m);
            assert(b[k] as u32 == b0);
        } else if k % 3 == 1 {
            assert(g + 2 < m);
            assert(b[k] as u32 == b1);
        } else {
            assert(g + 3 < m);
            assert(b[k] as u32 == b2);
        }
    }
    assert(d =~= b);
}

/// The sextets of an encoding, one per character.
pub open spec fn enc_sextets(b: Seq<u8>) -> Seq<u32> {
    Seq::new(enc_len(b.len()), |j: int| enc_sextet(b, j))
}

proof fn lemma_encoded_chars(b: Seq<u8>)
    ensures
        forall|k: int|
            0 <= k < base64_encode(b).len() ==> b64_val(#[trigger] base64_encode(b)[k]) == Some(
                enc_sextets(b)[k],
            ) && base64_encode(b)[k] != '=',
{
    let e = base64_encode(b);
    assert forall|k: int| 0 <= k < e.len() implies b64_val(#[trigger] e[k]) == Some(
        enc_sextets(b)[k],
    ) && e[k] != '=' by {
        lemma_enc_sextet_small(b, k);
        lemma_b64_char(enc_sextet(b, k));
    }
}

proof fn lemma_sextets_of_encoding(b: Seq<u8>, cs: Seq<char>)
    requires
        cs.len() >= base64_encode(b).len(),
        cs.subrange(0, base64_encode(b).len() as int) == base64_encode(b),
    ensures
        sextets_upto(cs, base64_encode(b).len() as int) == enc_sextets(b),
{
    let e = base64_encode(b);
    let sx = enc_sextets(b);
    lemma_encoded_chars(b);
    assert forall|k: int| 0 <= k < e.len() implies b64_val(#[trigger] cs[k]) == Some(sx[k]) by {
        assert(cs.subrange(0, e.len() as int)[k] == cs[k]);
    }
    lemma_sextets_all(cs, e.len() as int, sx);
    assert(sx.subrange(0, e.len() as int) =~= sx);
}

proof fn lemma_encoding_has_no_padding(b: Seq<u8>)
    ensures
        text::spec_find(base64_encode(b), seq!['=']) is None,
{
    let e = base64_encode(b);
    lemma_encoded_chars(b);
    assert forall|j: int| 0 <= j implies !text::matches_at(e, seq!['='], j) by {
        if text::matches_at(e, seq!['='], j) {
            assert(e.subrange(j, j + 1)[0] == e[j]);
        }
    }
    text::lemma_find_none(e, seq!['=']);
}

proof fn lemma_padding_ends_encoding(b: Seq<u8>)
    ensures
        b64_padding(b.len()).len() > 0 ==> text::spec_find(
            base64_encode(b) + b64_padding(b.len()),
            seq!['='],
        ) == Some(base64_encode(b).len() as int),
{
    let e = base64_encode(b);
    let ep = e + b64_padding(b.len());
    if b64_padding(b.len()).len() > 0 {
        lemma_encoded_chars(b);
        assert(ep.subrange(e.len() as int, e.len() + 1int) =~= seq!['=']);
        assert forall|j: int| 0 <= j < e.len() implies !text::matches_at(ep, seq!['='], j) by {
            assert(ep.subrange(j, j + 1)[0] == e[j]);
        }
        text::lemma_find_unique(ep, seq!['='], e.len() as int);
    }
}

/// Base64 decoding gives back the bytes a standard encoder encoded, with or
/// without the `=` padding.
pub proof fn law_base64_round_trip(b: Seq<u8>)
    ensures
        base64_decoded(base64_encode(b)) == b,
        base64_decoded(base64_encode(b) + b64_padding(b.len())) == b,
{
    let e = base64_encode(b);
    let ep = e + b64_padding(b.len());
    lemma_decode_encoded(b, enc_sextets(b));
    lemma_encoding_has_no_padding(b);
    lemma_padding_ends_encoding(b);
    assert(e.subrange(0, e.len() as int) =~= e);
    assert(ep.subrange(0, e.len() as int) =~= e);
    lemma_sextets_of_encoding(b, e);
    lemma_sextets_of_encoding(b, ep);
    if b64_padding(b.len()).len() == 0 {
        assert(ep =~= e);
    }
    assert(b64_sextets(e) == enc_sextets(b));
    assert(b64_sextets(ep) == enc_sextets(b));
}

fn b64_val_exec(c: char) -> (r: Option<u32>)
    ensures
        r == b64_val(c),
        r matches Some(v) ==> v < 64,
{
    if 'A' <= c && c <= 'Z' {
        Some((c as u32) - ('A' as u32))
    } else if 'a' <= c && c <= 'z' {
        Some((c as u32) - ('a' as u32) + 26)
    } else if '0' <= c && c <= '9' {
        Some((c as u32) - ('0' as u32) + 52)
    } else if c == '+' {
        Some(62)
    } else if c == '/' {
        Some(63)
    } else {
        None
    }
}

proof fn lemma_b64_out_len_step(n: nat)
    ensures
        b64_out_len(n + 1) == b64_out_len(n) + (if n % 4 == 0 {
            0nat
        } else {
            1nat
        }),
{
}

/// Decode Base64 text: characters outside the alphabet are skipped, decoding
/// stops at the first `=`, and a trailing partial byte is dropped.
pub fn base64_decode(input: &str) -> (output: Vec<u8>)
    ensures
        output@ == base64_decoded(input@),
        output@.len() <= input@.len(),
{
    let cs = text::to_chars(input);
    base64_decode_chars(&cs)
}

/// `base64_decode` on a character vector.
pub fn base64_decode_chars(cs: &Vec<char>) -> (output: Vec<u8>)
    ensures
        output@ == base64_decoded(cs@),
        output@.len() <= cs@.len(),
{
    let eq = ['='];
    assert(eq@ == seq!['=']);
    let end = match text::find_exec(cs.as_slice(), &eq) {
        Some(e) => e,
        None => cs.len(),
    };
    proof {
        text::lemma_find_from(cs@, eq@, 0);
    }
    let mut output: Vec<u8> = Vec::new();
    let mut buf: u32 = 0;
    let mut bits: u32 = 0;
    let mut i: usize = 0;
    while i < end
        invariant
            end <= cs@.len(),
            b64_sextets(cs@) == sextets_upto(cs@, end as int),
            i <= end,
            output@ == b64_decode_sextets(sextets_upto(cs@, i as int)),
            sextets_upto(cs@, i as int).len() <= i,
            ({
                let sx = sextets_upto(cs@, i as int);
                let n = sx.len();
                &&& forall|j: int| 0 <= j < n ==> sx[j] < 64
                &&& (n % 4 == 0 ==> bits == 0)
                &&& (n % 4 == 1 ==> bits == 6 && buf & 0x3f == sx[n - 1])
                &&& (n % 4 == 2 ==> bits == 4 && buf & 0xf == sx[n - 1] & 0xf)
                &&& (n % 4 == 3 ==> bits == 2 && buf & 0x3 == sx[n - 1] & 0x3)
            }),
        decreases end - i,
    {
        let ghost sx = sextets_upto(cs@, i as int);
        let ghost n = sx.len();
        if let Some(val) = b64_val_exec(cs[i]) {
            let ghost sx1 = sx.push(val);
            assert(sextets_upto(cs@, i + 1) == sx1);
            let old_buf = buf;
            buf = (buf << 6u32) | val;
            bits = bits + 6;
            if bits >= 8 {
                bits = bits - 8;
                let byte = #[verifier::truncate] ((buf >> bits) as u8);
                proof {
                    lemma_b64_out_len_step(n);
                    if n % 4 == 1 {
                        let s0 = sx[n - 1];
                        assert(((((old_buf << 6u32) | val) >> 4u32) as u8) == (((s0 << 2u32) | (val
                            >> 4u32)) as u8)) by (bit_vector)
                            requires
                                old_buf & 0x3f == s0,
                                val < 64,
                        ;
                        assert(((((old_buf << 6u32) | val) & 0xf) == val & 0xf)) by (bit_vector)
                            requires
                                val < 64,
                        ;
                        assert(b64_byte(sx1, b64_out_len(n) as int) == byte);
                    } else if n % 4 == 2 {
                        let s1 = sx[n - 1];
                        assert(((((old_buf << 6u32) | val) >> 2u32) as u8) == ((((s1 & 0xf) << 4u32)
                            | (val >> 2u32)) as u8)) by (bit_vector)
                            requires
                                old_buf & 0xf == s1 & 0xf,
                                val < 64,
                        ;
                        assert(((((old_buf << 6u32) | val) & 0x3) == val & 0x3)) by (bit_vector)
                            requires
                                val < 64,
                        ;
                        assert(b64_byte(sx1, b64_out_len(n) as int) == byte);
                    } else {
                        let s2 = sx[n - 1];
                        assert(((((old_buf << 6u32) | val) >> 0u32) as u8) == ((((s2 & 3) << 6u32)
                            | val) as u8)) by (bit_vector)
                            requires
                                old_buf & 0x3 == s2 & 0x3,
                                val < 64,
                        ;
                        assert(b64_byte(sx1, b64_out_len(n) as int) == byte);
                    }
                }
                output.push(byte);
                assert(output@ =~= b64_decode_sextets(sx1));
            } else {
                proof {
                    lemma_b64_out_len_step(n);
                    assert(n % 4 == 0);
                    assert((((old_buf << 6u32) | val) & 0x3f) == val) by (bit_vector)
                        requires
                            val < 64,
                    ;
                }
                assert(output@ =~= b64_decode_sextets(sx1));
            }
        } else {
            assert(sextets_upto(cs@, i + 1) == sx);
        }
        i += 1;
    }
    output
}

} // verus!
