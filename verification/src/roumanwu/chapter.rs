//! Chapter page parsing.
//!
//! Chapter HTML embeds the page list in one of two shapes:
//!
//! 1. **Current format**: an inline `<script>` whose body exposes the page
//!    list as `imagePaths:["…","…",…]` (optionally `imagePaths:$R[N]=[…]`).
//! 2. **Legacy format**: streaming chunks
//!    `self.__next_f.push([1,"…"])` whose unescaped concatenation carries
//!    `"imageUrl":"…"` / `"ind":N` pairs.
//!
//! The current format is tried first; the legacy scanner is the fallback.
//! The page-count widget on the chapter page is read for its number only:
//! it is often stale, and the list comes from the script payload alone.
use vstd::prelude::*;

use crate::model::{Page, PageView};
use crate::num;
use crate::text;

verus! {

// ---------- `imagePaths:` array location (bytes) ----------

pub open spec fn is_digit_byte(b: u8) -> bool {
    0x30 <= b && b <= 0x39
}

/// First index at or after `j` that does not hold an ASCII digit.
pub open spec fn digits_end(b: Seq<u8>, j: int) -> int
    decreases b.len() - j,
{
    if 0 <= j < b.len() && is_digit_byte(b[j]) {
        digits_end(b, j + 1)
    } else {
        j
    }
}

/// After an LHS ending at `m`: an optional `=`, then the array's `[`.
pub open spec fn array_after_eq(b: Seq<u8>, m: int) -> Option<int> {
    let m2 = if 0 <= m < b.len() && b[m] == 0x3d {
        m + 1
    } else {
        m
    };
    if 0 <= m2 < b.len() && b[m2] == 0x5b {
        Some(m2)
    } else {
        None
    }
}

/// The `[` of an array announced by a `[N]=` slot whose `[` is at `j`
/// (`N` a possibly empty run of digits).
pub open spec fn slot_array(b: Seq<u8>, j: int) -> Option<int> {
    let k = digits_end(b, j + 1);
    if 0 <= k && k + 2 < b.len() && b[k] == 0x5d && b[k + 1] == 0x3d && b[k + 2] == 0x5b {
        Some(k + 2)
    } else {
        None
    }
}

/// Position of the array's `[` at `off`: after a `[N]=` slot, after a
/// `$R[N]=` or `$R[N]` slot, or a bare `[` itself (`N` a possibly empty run
/// of digits).
pub open spec fn array_after_lhs(b: Seq<u8>, off: int) -> Option<int> {
    if off < 0 || off >= b.len() {
        None
    } else if b[off] == 0x5b {
        match slot_array(b, off) {
            Some(i) => Some(i),
            None => Some(off),
        }
    } else if b[off] == 0x24 {
        if !(off + 2 <= b.len() && b[off + 1] == 0x52) {
            None
        } else if off + 2 >= b.len() || b[off + 2] != 0x5b {
            None
        } else {
            let k = digits_end(b, off + 3);
            if k >= b.len() || b[k] != 0x5d {
                None
            } else {
                array_after_eq(b, k + 1)
            }
        }
    } else {
        None
    }
}

/// The bytes of `imagePaths:`.
pub open spec fn image_paths_marker() -> Seq<u8> {
    seq![0x69u8, 0x6d, 0x61, 0x67, 0x65, 0x50, 0x61, 0x74, 0x68, 0x73, 0x3a]
}

/// The first occurrence of `imagePaths:` at or after `start` that is
/// followed by an array (after an optional `$R[N]=`), as the array's offset.
pub open spec fn paths_array_from(b: Seq<u8>, start: int) -> Option<int>
    decreases b.len() - start,
{
    if start < 0 || start > b.len() {
        None
    } else {
        match text::find_from(b, image_paths_marker(), start) {
            None => None,
            Some(p) => match array_after_lhs(b, p + 11) {
                Some(i) => Some(i),
                // `p < start` never holds; the guard only bounds the recursion.
                None => if p < start || p + 11 > b.len() {
                    None
                } else {
                    paths_array_from(b, p + 11)
                },
            },
        }
    }
}

fn digits_end_exec(bytes: &[u8], from: usize) -> (k: usize)
    requires
        from <= bytes@.len(),
    ensures
        from <= k <= bytes@.len(),
        k == digits_end(bytes@, from as int),
{
    let mut i = from;
    while i < bytes.len() && 0x30 <= bytes[i] && bytes[i] <= 0x39
        invariant
            from <= i <= bytes@.len(),
            digits_end(bytes@, from as int) == digits_end(bytes@, i as int),
        decreases bytes.len() - i,
    {
        i += 1;
    }
    i
}

/// If `body` at `offset` holds a `[N]=` slot (a server reference), a
/// `$R[N]=` or `$R[N]` slot, or directly begins with `[`, return the byte
/// index of the array's opening `[`.
pub fn skip_optional_array_lhs(body: &str, offset: usize) -> (r: Option<usize>)
    ensures
        match r {
            Some(i) => array_after_lhs(vstd::utf8::encode_utf8(body@), offset as int) == Some(i as int),
            None => array_after_lhs(vstd::utf8::encode_utf8(body@), offset as int) is None,
        },
{
    let bytes = body.as_bytes();
    let ghost b = bytes@;
    let mut i = offset;
    if i >= bytes.len() {
        return None;
    }
    if bytes[i] == 0x5b {
        let k = digits_end_exec(bytes, i + 1);
        if k < bytes.len() && bytes.len() - k > 2 && bytes[k] == 0x5d && bytes[k + 1] == 0x3d
            && bytes[k + 2] == 0x5b {
            return Some(k + 2);
        }
        return Some(i);
    }
    if bytes[i] == 0x24 {
        if !(bytes.len() - i >= 2 && bytes[i + 1] == 0x52) {
            return None;
        }
        i += 2;
        if i >= bytes.len() || bytes[i] != 0x5b {
            return None;
        }
        i += 1;
        while i < bytes.len() && 0x30 <= bytes[i] && bytes[i] <= 0x39
            invariant
                b == bytes@,
                offset + 3 <= i <= b.len(),
                digits_end(b, offset + 3) == digits_end(b, i as int),
            decreases bytes.len() - i,
        {
            i += 1;
        }
        if i >= bytes.len() || bytes[i] != 0x5d {
            return None;
        }
        i += 1;
    } else {
        return None;
    }
    if i < bytes.len() && bytes[i] == 0x3d {
        i += 1;
    }
    if i < bytes.len() && bytes[i] == 0x5b {
        Some(i)
    } else {
        None
    }
}

/// Byte offset of the JSON array literal that follows `imagePaths:` in
/// `body` (shapes `imagePaths:[…]` and `imagePaths:$R[27]=[…]`); every
/// occurrence of the marker is tried in order.
pub fn find_image_paths_array(body: &str) -> (r: Option<usize>)
    ensures
        match r {
            Some(i) => paths_array_from(vstd::utf8::encode_utf8(body@), 0) == Some(i as int),
            None => paths_array_from(vstd::utf8::encode_utf8(body@), 0) is None,
        },
{
    let bytes = body.as_bytes();
    let needle: [u8; 11] = [0x69, 0x6d, 0x61, 0x67, 0x65, 0x50, 0x61, 0x74, 0x68, 0x73, 0x3a];
    assert(needle@ == image_paths_marker());
    let mut search_start: usize = 0;
    loop
        invariant
            bytes@ == vstd::utf8::encode_utf8(body@),
            needle@ == image_paths_marker(),
            search_start <= bytes@.len(),
            paths_array_from(bytes@, 0) == paths_array_from(bytes@, search_start as int),
        decreases bytes@.len() - search_start,
    {
        match text::find_from_bytes(bytes, &needle, search_start) {
            None => {
                return None;
            },
            Some(rel) => {
                proof {
                    text::lemma_find_from(bytes@, needle@, search_start as int);
                }
                let n = bytes.len();
                assert(rel + 11 <= n);
                let marker_abs = rel + 11;
                match skip_optional_array_lhs(body, marker_abs) {
                    Some(idx) => {
                        return Some(idx);
                    },
                    None => {
                        search_start = marker_abs;
                    },
                }
            },
        }
    }
}

// ---------- JSON string array (characters) ----------

/// Outcome of reading a JSON string body.
pub enum Scan {
    /// The closing quote was found; content and the index after it.
    Closed(Seq<char>, int),
    /// The text ended inside the string.
    Unterminated,
}

/// Character produced by a simple escape `\n` (for `"`, `\`, `n`, `r`,
/// `t`, `/`).
pub open spec fn simple_escape(n: char) -> Option<char> {
    if n == '"' {
        Some('"')
    } else if n == '\\' {
        Some('\\')
    } else if n == 'n' {
        Some('\n')
    } else if n == 'r' {
        Some('\r')
    } else if n == 't' {
        Some('\t')
    } else if n == '/' {
        Some('/')
    } else {
        None
    }
}

/// The character a `\u` hex run stands for, if any.
pub open spec fn hex_char(hex: Seq<char>) -> Option<char> {
    match num::parse_unsigned(hex, 16, 0xffff_ffff) {
        Some(v) => if num::is_scalar_value(v as u32) {
            Some((v as u32) as char)
        } else {
            None
        },
        None => None,
    }
}

pub open spec fn push_opt(cur: Seq<char>, c: Option<char>) -> Seq<char> {
    match c {
        Some(x) => cur.push(x),
        None => cur,
    }
}

/// Reading a JSON string body from character `i`, with `cur` read so far:
/// simple escapes, `\uXXXX` (the next four characters), any other escaped
/// character kept; every other character copied whole.
pub open spec fn string_scan(cs: Seq<char>, i: int, cur: Seq<char>) -> Scan
    decreases cs.len() - i,
{
    if i < 0 || i >= cs.len() {
        Scan::Unterminated
    } else if cs[i] == '"' {
        Scan::Closed(cur, i + 1)
    } else if cs[i] == '\\' {
        if i + 1 >= cs.len() {
            Scan::Unterminated
        } else {
            let n = cs[i + 1];
            match simple_escape(n) {
                Some(e) => string_scan(cs, i + 2, cur.push(e)),
                None => if n == 'u' {
                    if i + 6 <= cs.len() {
                        string_scan(cs, i + 6, push_opt(cur, hex_char(cs.subrange(i + 2, i + 6))))
                    } else {
                        string_scan(cs, i + 2, cur)
                    }
                } else {
                    string_scan(cs, i + 2, cur.push(n))
                },
            }
        }
    } else {
        string_scan(cs, i + 1, cur.push(cs[i]))
    }
}

pub open spec fn is_sep(c: char) -> bool {
    c == ' ' || c == '\t' || c == '\n' || c == '\r' || c == ','
}

/// First index at or after `i` that is not whitespace or a comma.
pub open spec fn skip_seps(cs: Seq<char>, i: int) -> int
    decreases cs.len() - i,
{
    if 0 <= i < cs.len() && is_sep(cs[i]) {
        skip_seps(cs, i + 1)
    } else {
        i
    }
}

/// The array entries read from index `i` on, after `acc`.
pub open spec fn items_scan(cs: Seq<char>, i: int, acc: Seq<Seq<char>>) -> Seq<Seq<char>>
    decreases cs.len() - i,
{
    let j = skip_seps(cs, i);
    if j < i || j >= cs.len() || cs[j] != '"' {
        acc
    } else {
        match string_scan(cs, j + 1, Seq::empty()) {
            Scan::Unterminated => acc,
            Scan::Closed(content, next) => if next <= i || next > cs.len() {
                acc
            } else {
                items_scan(cs, next, acc.push(content))
            },
        }
    }
}

/// Entries of the JSON array of strings that `cs` starts with: entries up to
/// the first token that is not a string, the closing `]`, or the end of the
/// text (an unterminated string ends the list).
pub open spec fn json_string_array(cs: Seq<char>) -> Seq<Seq<char>> {
    if cs.len() > 0 && cs[0] == '[' {
        items_scan(cs, 1, Seq::empty())
    } else {
        Seq::empty()
    }
}

proof fn lemma_skip_seps(cs: Seq<char>, i: int)
    requires
        0 <= i,
    ensures
        i <= skip_seps(cs, i),
        skip_seps(cs, i) <= cs.len() || skip_seps(cs, i) == i,
    decreases cs.len() - i,
{
    if 0 <= i < cs.len() && is_sep(cs[i]) {
        lemma_skip_seps(cs, i + 1);
    }
}

proof fn lemma_string_scan(cs: Seq<char>, i: int, cur: Seq<char>)
    requires
        0 <= i,
    ensures
        string_scan(cs, i, cur) matches Scan::Closed(_, next) ==> i < next <= cs.len(),
    decreases cs.len() - i,
{
    if i >= cs.len() {
    } else if cs[i] == '"' {
    } else if cs[i] == '\\' {
        if i + 1 < cs.len() {
            let n = cs[i + 1];
            match simple_escape(n) {
                Some(e) => lemma_string_scan(cs, i + 2, cur.push(e)),
                None => if n == 'u' {
                    if i + 6 <= cs.len() {
                        lemma_string_scan(
                            cs,
                            i + 6,
                            push_opt(cur, hex_char(cs.subrange(i + 2, i + 6))),
                        );
                    } else {
                        lemma_string_scan(cs, i + 2, cur);
                    }
                } else {
                    lemma_string_scan(cs, i + 2, cur.push(n));
                },
            }
        }
    } else {
        lemma_string_scan(cs, i + 1, cur.push(cs[i]));
    }
}

pub(crate) fn simple_escape_exec(n: char) -> (r: Option<char>)
    ensures
        r == simple_escape(n),
{
    if n == '"' {
        Some('"')
    } else if n == '\\' {
        Some('\\')
    } else if n == 'n' {
        Some('\n')
    } else if n == 'r' {
        Some('\r')
    } else if n == 't' {
        Some('\t')
    } else if n == '/' {
        Some('/')
    } else {
        None
    }
}

/// The character a hex run stands for (`u32::from_str_radix` then
/// `char::from_u32`).
pub fn hex_char_exec(hex: &[char]) -> (r: Option<char>)
    ensures
        r == hex_char(hex@),
{
    match num::parse_hex_u32(hex) {
        Some(code) => {
            let r = num::char_from_u32(code);
            proof {
                if let Some(c) = r {
                    vstd::utf8::char_u32_cast(c, code);
                }
            }
            r
        },
        None => None,
    }
}

pub(crate) fn push_opt_exec(s: &mut String, c: Option<char>)
    ensures
        final(s)@ == push_opt(old(s)@, c),
{
    if let Some(x) = c {
        text::push_char(s, x);
    }
}

/// Reads the string body starting at `start`: its content and the index
/// after the closing quote, or `None` when the text ends inside it.
fn scan_json_string(cs: &Vec<char>, start: usize) -> (r: Option<(String, usize)>)
    ensures
        match string_scan(cs@, start as int, Seq::empty()) {
            Scan::Closed(content, next) => r matches Some((s, n)) && s@ == content && n == next,
            Scan::Unterminated => r is None,
        },
{
    let mut entry = String::new();
    let mut i = start;
    let n = cs.len();
    loop
        invariant
            n == cs@.len(),
            start <= i,
            string_scan(cs@, i as int, entry@) == string_scan(cs@, start as int, Seq::empty()),
        decreases n - i,
    {
        if i >= n {
            return None;
        }
        let c = cs[i];
        if c == '"' {
            return Some((entry, i + 1));
        }
        if c == '\\' {
            if i + 1 >= n {
                return None;
            }
            let nx = cs[i + 1];
            match simple_escape_exec(nx) {
                Some(e) => {
                    text::push_char(&mut entry, e);
                    i += 2;
                },
                None => {
                    if nx == 'u' {
                        if n - i >= 6 {
                            let hex = text::sub_chars(cs.as_slice(), i + 2, i + 6);
                            push_opt_exec(&mut entry, hex_char_exec(hex.as_slice()));
                            i += 6;
                        } else {
                            i += 2;
                        }
                    } else {
                        text::push_char(&mut entry, nx);
                        i += 2;
                    }
                },
            }
        } else {
            text::push_char(&mut entry, c);
            i += 1;
        }
    }
}

/// Walk a JSON array literal starting at `[` and return each entry's
/// unescaped string contents (`\"`, `\\`, control escapes, `\uXXXX`);
/// multi-byte characters inside strings are kept whole.
pub fn extract_json_string_array(raw: &str) -> (entries: Vec<String>)
    ensures
        text::views(entries@) == json_string_array(raw@),
{
    let cs = text::to_chars(raw);
    let mut entries: Vec<String> = Vec::new();
    if cs.len() == 0 || cs[0] != '[' {
        assert(text::views(entries@) =~= Seq::<Seq<char>>::empty());
        return entries;
    }
    let n = cs.len();
    let mut i: usize = 1;
    assert(text::views(entries@) =~= Seq::<Seq<char>>::empty());
    loop
        invariant
            n == cs@.len(),
            cs@ == raw@,
            1 <= i <= n,
            cs@[0] == '[',
            items_scan(cs@, i as int, text::views(entries@)) == json_string_array(raw@),
        decreases n - i,
    {
        proof {
            lemma_skip_seps(cs@, i as int);
        }
        let ghost i0 = i;
        while i < n && (cs[i] == ' ' || cs[i] == '\t' || cs[i] == '\n' || cs[i] == '\r' || cs[i]
            == ',')
            invariant
                n == cs@.len(),
                i0 <= i <= n,
                skip_seps(cs@, i0 as int) == skip_seps(cs@, i as int),
            decreases n - i,
        {
            i += 1;
        }
        if i >= n || cs[i] != '"' {
            return entries;
        }
        proof {
            lemma_string_scan(cs@, i + 1, Seq::empty());
        }
        match scan_json_string(&cs, i + 1) {
            None => {
                return entries;
            },
            Some((entry, next)) => {
                let ghost before = text::views(entries@);
                entries.push(entry);
                assert(text::views(entries@) =~= before.push(entry@));
                i = next;
            },
        }
    }
}

// ---------- Legacy streaming chunks ----------

/// The chunk call's opening, up to its chunk id.
pub open spec fn rsc_open() -> Seq<char> {
    "self.__next_f.push(["@
}

/// The chunk wrapper's closing.
pub open spec fn rsc_close() -> Seq<char> {
    "\"])"@
}

/// The inner string of a chunk: from the first quote after the opening
/// marker (past the chunk id, `[1,"…"])`, `[3,"…"])`, …), up to the last
/// closing marker.
pub open spec fn rsc_chunk(d: Seq<char>) -> Option<Seq<char>> {
    match text::spec_find(d, rsc_open()) {
        None => None,
        Some(p) => {
            let after = d.subrange(p + rsc_open().len(), d.len() as int);
            match text::spec_find(after, seq!['"']) {
                None => None,
                Some(q) => {
                    let rest = after.subrange(q + 1, after.len() as int);
                    match text::spec_rfind(rest, rsc_close()) {
                        None => None,
                        Some(e) => Some(rest.subrange(0, e)),
                    }
                },
            }
        },
    }
}

/// Strip the `self.__next_f.push([N,"…"])` wrapper from a chunk, whatever
/// its chunk id `N`, returning the inner JSON-escaped string.
pub fn extract_rsc_chunk(data: &str) -> (r: Option<&str>)
    ensures
        match r {
            Some(inner) => rsc_chunk(data@) == Some(inner@),
            None => rsc_chunk(data@) is None,
        },
{
    let cs = text::to_chars(data);
    let open = text::to_chars("self.__next_f.push([");
    let close = text::to_chars("\"])");
    let quote = ['"'];
    assert(quote@ == seq!['"']);
    proof {
        text::lemma_find_from(cs@, open@, 0);
    }
    let n = cs.len();
    let start = match text::find_exec(cs.as_slice(), open.as_slice()) {
        Some(p) => {
            assert(p + open@.len() <= n);
            p + open.len()
        },
        None => {
            return None;
        },
    };
    let after = text::sub_chars(cs.as_slice(), start, n);
    proof {
        text::lemma_find_from(after@, quote@, 0);
    }
    let q = match text::find_exec(after.as_slice(), &quote) {
        Some(q) => {
            assert(q + 1 <= after@.len());
            q
        },
        None => {
            return None;
        },
    };
    let body_start = start + q + 1;
    let tail = text::sub_chars(cs.as_slice(), body_start, n);
    let ghost rest = after@.subrange(q + 1, after@.len() as int);
    assert(tail@ =~= rest);
    proof {
        text::lemma_rfind_below(tail@, close@, tail@.len() - close@.len());
    }
    match text::rfind_exec(tail.as_slice(), close.as_slice()) {
        None => None,
        Some(e) => {
            assert(data@.subrange(body_start as int, body_start + e) =~= rest.subrange(0, e as int));
            Some(data.substring_char(body_start, body_start + e))
        },
    }
}

/// Unescaping of a chunk's characters from index `i`, appended to `out`:
/// `\"`, `\\`, `\n`, `\r`, `\t`, `\/` and `\uXXXX` (the next four
/// characters, dropped when they name no character) are decoded, any other
/// escaped character is kept, and every other character is copied whole.
pub open spec fn unescape_chunk(cs: Seq<char>, i: int, out: Seq<char>) -> Seq<char>
    decreases cs.len() - i,
{
    if i < 0 || i >= cs.len() {
        out
    } else if cs[i] == '\\' && i + 1 < cs.len() {
        let n = cs[i + 1];
        match simple_escape(n) {
            Some(e) => unescape_chunk(cs, i + 2, out.push(e)),
            None => if n == 'u' {
                if i + 5 < cs.len() {
                    unescape_chunk(cs, i + 6, push_opt(out, hex_char(cs.subrange(i + 2, i + 6))))
                } else {
                    unescape_chunk(cs, i + 2, out)
                }
            } else {
                unescape_chunk(cs, i + 2, out.push(n))
            },
        }
    } else {
        unescape_chunk(cs, i + 1, out.push(cs[i]))
    }
}

/// Append the unescaped contents of `inner` to `out`; text that is not an
/// escape, multi-byte characters included, is appended as it is.
pub fn unescape_json_string_into(inner: &str, out: &mut String)
    ensures
        final(out)@ == unescape_chunk(inner@, 0, old(out)@),
{
    let cs = text::to_chars(inner);
    let n = cs.len();
    let mut i: usize = 0;
    while i < n
        invariant
            n == cs@.len(),
            cs@ == inner@,
            i <= n,
            unescape_chunk(cs@, i as int, out@) == unescape_chunk(cs@, 0, old(out)@),
        decreases n - i,
    {
        if cs[i] == '\\' && i + 1 < n {
            let nx = cs[i + 1];
            match simple_escape_exec(nx) {
                Some(e) => {
                    text::push_char(out, e);
                    i += 2;
                },
                None => {
                    if nx == 'u' {
                        if n - i > 5 {
                            let hex = text::sub_chars(cs.as_slice(), i + 2, i + 6);
                            push_opt_exec(out, hex_char_exec(hex.as_slice()));
                            i += 6;
                        } else {
                            i += 2;
                        }
                    } else {
                        text::push_char(out, nx);
                        i += 2;
                    }
                },
            }
        } else {
            text::push_char(out, cs[i]);
            i += 1;
        }
    }
}

/// Each byte as the `char` of the same value.
pub open spec fn latin1(b: Seq<u8>) -> Seq<char> {
    b.map_values(|x: u8| x as char)
}

/// The bytes of `"imageUrl":"`.
pub open spec fn image_url_marker() -> Seq<u8> {
    seq![0x22u8, 0x69, 0x6d, 0x61, 0x67, 0x65, 0x55, 0x72, 0x6c, 0x22, 0x3a, 0x22]
}

/// The bytes of `"ind":`.
pub open spec fn ind_marker() -> Seq<u8> {
    seq![0x22u8, 0x69, 0x6e, 0x64, 0x22, 0x3a]
}

/// First index at or after `j` holding a `"`, or the end.
pub open spec fn quote_end(b: Seq<u8>, j: int) -> int
    decreases b.len() - j,
{
    if 0 <= j < b.len() && b[j] != 0x22 {
        quote_end(b, j + 1)
    } else {
        j
    }
}

/// First index at or after `j` that is at `lim` or holds no ASCII digit.
pub open spec fn digits_end_below(b: Seq<u8>, j: int, lim: int) -> int
    decreases lim - j,
{
    if 0 <= j < lim && j < b.len() && is_digit_byte(b[j]) {
        digits_end_below(b, j + 1, lim)
    } else {
        j
    }
}

/// The page index that follows a URL ending at `ue`: the first `"ind":` at
/// or after `ue`, if it starts within the next 400 bytes, followed by a run of
/// digits that parses as an `i32`.
pub open spec fn ind_value(b: Seq<u8>, ue: int) -> Option<i32> {
    let scan_end = if b.len() < ue + 400 {
        b.len() as int
    } else {
        ue + 400
    };
    match text::find_from(b, ind_marker(), ue) {
        Some(j) => if j + 6 < scan_end {
            let k = digits_end_below(b, j + 6, scan_end);
            if k > j + 6 {
                num::parse_i32(latin1(b.subrange(j + 6, k)))
            } else {
                None
            }
        } else {
            None
        },
        None => None,
    }
}

/// `(ind, url)` pairs found from byte `i` on, after `acc`: each
/// `"imageUrl":"…"` whose URL is an `http(s)://` URL and has an `ind`.
pub open spec fn url_pairs(b: Seq<u8>, i: int, acc: Seq<(i32, Seq<char>)>) -> Seq<
    (i32, Seq<char>),
>
    decreases b.len() - i,
{
    if i < 0 || i + 12 >= b.len() {
        acc
    } else if !text::matches_at(b, image_url_marker(), i) {
        url_pairs(b, i + 1, acc)
    } else {
        let us = i + 12;
        let ue = quote_end(b, us);
        if ue < us || ue >= b.len() {
            acc
        } else {
            let url = vstd::utf8::decode_utf8(b.subrange(us, ue));
            let acc2 = if text::is_http_url(url) {
                match ind_value(b, ue) {
                    Some(n) => acc.push((n, url)),
                    None => acc,
                }
            } else {
                acc
            };
            url_pairs(b, ue + 1, acc2)
        }
    }
}

/// Index of the first entry whose key is greater than `k`, from `i` on.
pub open spec fn first_greater(s: Seq<(i32, Seq<char>)>, k: i32, i: int) -> int
    decreases s.len() - i,
{
    if 0 <= i < s.len() && s[i].0 <= k {
        first_greater(s, k, i + 1)
    } else {
        i
    }
}

/// Stable sort by key (insertion: each entry goes after every earlier entry
/// with a key not greater than its own).
pub open spec fn stable_sort(s: Seq<(i32, Seq<char>)>) -> Seq<(i32, Seq<char>)>
    decreases s.len(),
{
    if s.len() == 0 {
        s
    } else {
        let sorted = stable_sort(s.drop_last());
        sorted.insert(first_greater(sorted, s.last().0, 0), s.last())
    }
}

pub open spec fn sorted_by_key(s: Seq<(i32, Seq<char>)>) -> bool {
    forall|i: int, j: int| 0 <= i < j < s.len() ==> s[i].0 <= s[j].0
}

proof fn lemma_first_greater(s: Seq<(i32, Seq<char>)>, k: i32, i: int)
    requires
        0 <= i <= s.len(),
    ensures
        i <= first_greater(s, k, i) <= s.len(),
        forall|j: int| i <= j < first_greater(s, k, i) ==> s[j].0 <= k,
        first_greater(s, k, i) < s.len() ==> s[first_greater(s, k, i)].0 > k,
    decreases s.len() - i,
{
    if i < s.len() && s[i].0 <= k {
        lemma_first_greater(s, k, i + 1);
    }
}

/// The pages of a chapter come in `ind` order: the sort by `ind` is
/// ordered by key and is a rearrangement of the scanned pairs (every pair
/// kept, as often as it occurs).
pub proof fn law_stable_sort_orders_by_ind(s: Seq<(i32, Seq<char>)>)
    ensures
        sorted_by_key(stable_sort(s)),
        stable_sort(s).len() == s.len(),
        stable_sort(s).to_multiset() == s.to_multiset(),
    decreases s.len(),
{
    if s.len() > 0 {
        let sorted = stable_sort(s.drop_last());
        law_stable_sort_orders_by_ind(s.drop_last());
        let x = s.last();
        let p = first_greater(sorted, x.0, 0);
        lemma_first_greater(sorted, x.0, 0);
        let r = sorted.insert(p, x);
        vstd::seq_lib::to_multiset_insert(sorted, p, x);
        vstd::seq_lib::to_multiset_build(s.drop_last(), x);
        assert(s.drop_last().push(x) =~= s);
        assert forall|i: int, j: int| 0 <= i < j < r.len() implies r[i].0 <= r[j].0 by {
            if j < p {
            } else if j == p {
                assert(r[i] == sorted[i]);
            } else if i < p {
                assert(r[j] == sorted[j - 1]);
                if p < sorted.len() {
                    assert(sorted[p].0 > x.0);
                }
            } else if i == p {
                assert(r[j] == sorted[j - 1]);
                assert(sorted[p].0 > x.0);
                assert(sorted[p].0 <= sorted[j - 1].0 || j - 1 == p);
            } else {
            }
        }
    }
}

/// Entries of `s` with repeats after the first occurrence dropped.
pub open spec fn dedup(s: Seq<Seq<char>>) -> Seq<Seq<char>>
    decreases s.len(),
{
    if s.len() == 0 {
        s
    } else {
        let d = dedup(s.drop_last());
        if d.contains(s.last()) {
            d
        } else {
            d.push(s.last())
        }
    }
}

/// A chapter lists each image once: deduplication keeps exactly the URLs
/// of its input, none of them twice.
pub proof fn law_dedup_keeps_each_url_once(s: Seq<Seq<char>>)
    ensures
        dedup(s).no_duplicates(),
        forall|x: Seq<char>| #[trigger] dedup(s).contains(x) <==> s.contains(x),
    decreases s.len(),
{
    if s.len() > 0 {
        let p = s.drop_last();
        law_dedup_keeps_each_url_once(p);
        let d = dedup(p);
        let ds = dedup(s);
        assert(ds == if d.contains(s.last()) {
            d
        } else {
            d.push(s.last())
        });
        assert forall|x: Seq<char>| #[trigger] ds.contains(x) <==> s.contains(x) by {
            if d.contains(x) {
                let k = choose|k: int| 0 <= k < d.len() && d[k] == x;
                assert(ds[k] == x);
            }
            if s.contains(x) {
                let i = choose|i: int| 0 <= i < s.len() && s[i] == x;
                if i < s.len() - 1 {
                    assert(p[i] == x);
                    assert(p.contains(x));
                } else if !d.contains(x) {
                    assert(ds[d.len() as int] == x);
                }
            }
            if ds.contains(x) {
                let i = choose|i: int| 0 <= i < ds.len() && ds[i] == x;
                if i < d.len() {
                    assert(d[i] == x);
                    assert(d.contains(x));
                    let j = choose|j: int| 0 <= j < p.len() && p[j] == x;
                    assert(s[j] == x);
                } else {
                    assert(s[s.len() - 1] == x);
                }
            }
        }
        if !d.contains(s.last()) {
            let e = d.push(s.last());
            assert forall|i: int, j: int|
                (0 <= i < e.len() && 0 <= j < e.len() && i != j) implies e[i] != e[j] by {
                if i == d.len() {
                    assert(e[j] == d[j]);
                } else if j == d.len() {
                    assert(e[i] == d[i]);
                }
            }
        }
    }
}

pub open spec fn pair_urls(s: Seq<(i32, Seq<char>)>) -> Seq<Seq<char>> {
    s.map_values(|p: (i32, Seq<char>)| p.1)
}

pub open spec fn pair_views(s: Seq<(i32, String)>) -> Seq<(i32, Seq<char>)> {
    s.map_values(|p: (i32, String)| (p.0, p.1@))
}

/// Scan the unescaped payload for `"imageUrl":"…"` / `"ind":N` pairs and
/// return them ordered by `ind` (equal indices keep their payload order).
pub fn extract_image_url_ind_pairs(payload: &str) -> (entries: Vec<(i32, String)>)
    ensures
        pair_views(entries@) == stable_sort(
            url_pairs(vstd::utf8::encode_utf8(payload@), 0, Seq::empty()),
        ),
{
    let bytes = payload.as_bytes();
    let ghost b = bytes@;
    let needle: [u8; 12] = [0x22, 0x69, 0x6d, 0x61, 0x67, 0x65, 0x55, 0x72, 0x6c, 0x22, 0x3a, 0x22];
    assert(needle@ =~= image_url_marker());
    proof {
        vstd::utf8::encode_utf8_valid_utf8(payload@);
    }
    let n = bytes.len();
    let mut entries: Vec<(i32, String)> = Vec::new();
    let mut i: usize = 0;
    assert(pair_views(entries@) =~= Seq::<(i32, Seq<char>)>::empty());
    loop
        invariant
            n == b.len(),
            b == bytes@,
            b == vstd::utf8::encode_utf8(payload@),
            vstd::utf8::valid_utf8(b),
            needle@ == image_url_marker(),
            url_pairs(b, i as int, pair_views(entries@)) == url_pairs(b, 0, Seq::empty()),
        ensures
            url_pairs(b, 0, Seq::empty()) == pair_views(entries@),
        decreases n - i,
    {
        if !(i < n && n - i > 12) {
            assert(url_pairs(b, i as int, pair_views(entries@)) == pair_views(entries@));
            break;
        }
        if !text::matches_at_bytes(bytes, &needle, i) {
            i += 1;
            continue;
        }
        let url_start = i + 12;
        let mut url_end = url_start;
        while url_end < n && bytes[url_end] != 0x22
            invariant
                n == b.len(),
                b == bytes@,
                url_start <= url_end <= n,
                quote_end(b, url_start as int) == quote_end(b, url_end as int),
            decreases n - url_end,
        {
            url_end += 1;
        }
        if url_end >= n {
            assert(url_pairs(b, i as int, pair_views(entries@)) == pair_views(entries@));
            break;
        }
        proof {
            assert(b[url_start - 1] == needle@[11]);
            text::lemma_ascii_boundary(b, url_start as int);
            text::lemma_ascii_boundary(b, url_end as int);
        }
        let url = text::str_byte_range(payload, url_start, url_end);
        let ucs = text::to_chars(url.as_str());
        if text::is_http_url_exec(ucs.as_slice()) {
            let ind_val = ind_after(bytes, url_end);
            if let Some(nv) = ind_val {
                let ghost before = pair_views(entries@);
                entries.push((nv, url));
                assert(pair_views(entries@) =~= before.push((nv, ucs@)));
            }
        }
        i = url_end + 1;
    }
    sort_by_ind(entries)
}

/// The page index after a URL ending at `url_end` (see [`ind_value`]).
fn ind_after(bytes: &[u8], url_end: usize) -> (r: Option<i32>)
    requires
        url_end <= bytes@.len(),
    ensures
        r == ind_value(bytes@, url_end as int),
{
    let ghost b = bytes@;
    let n = bytes.len();
    let needle_ind: [u8; 6] = [0x22, 0x69, 0x6e, 0x64, 0x22, 0x3a];
    assert(needle_ind@ =~= ind_marker());
    let scan_end = if n - url_end < 400 {
        n
    } else {
        url_end + 400
    };
    let mut j = url_end;
    proof {
        text::lemma_find_from(b, needle_ind@, url_end as int);
    }
    while j < scan_end && scan_end - j > 6
        invariant
            n == b.len(),
            b == bytes@,
            needle_ind@ == ind_marker(),
            url_end <= j,
            scan_end <= n,
            scan_end == (if b.len() < url_end + 400 {
                b.len() as int
            } else {
                url_end + 400
            }),
            text::find_from(b, ind_marker(), url_end as int) == text::find_from(
                b,
                ind_marker(),
                j as int,
            ),
        decreases scan_end - j,
    {
        if text::matches_at_bytes(bytes, &needle_ind, j) {
            let mut k = j + 6;
            let n_start = k;
            while k < scan_end && 0x30 <= bytes[k] && bytes[k] <= 0x39
                invariant
                    n == b.len(),
                    b == bytes@,
                    n_start <= k <= scan_end,
                    scan_end <= n,
                    digits_end_below(b, n_start as int, scan_end as int) == digits_end_below(
                        b,
                        k as int,
                        scan_end as int,
                    ),
                decreases scan_end - k,
            {
                k += 1;
            }
            if k > n_start {
                let mut num: Vec<char> = Vec::new();
                let mut m = n_start;
                while m < k
                    invariant
                        n == b.len(),
                        b == bytes@,
                        n_start <= m <= k <= n,
                        num@ == latin1(b.subrange(n_start as int, m as int)),
                    decreases k - m,
                {
                    num.push(bytes[m] as char);
                    assert(latin1(b.subrange(n_start as int, m + 1)) =~= latin1(
                        b.subrange(n_start as int, m as int),
                    ).push(b[m as int] as char));
                    m += 1;
                }
                return num::parse_i32_exec(num.as_slice());
            }
            return None;
        }
        j += 1;
    }
    proof {
        text::lemma_find_from(b, ind_marker(), j as int);
    }
    None
}

/// Stable insertion sort by the index.
fn sort_by_ind(entries: Vec<(i32, String)>) -> (r: Vec<(i32, String)>)
    ensures
        pair_views(r@) == stable_sort(pair_views(entries@)),
{
    let mut out: Vec<(i32, String)> = Vec::new();
    let mut rest = entries;
    let ghost all = pair_views(rest@);
    let ghost total = all.len();
    assert(all.subrange(0, 0) =~= Seq::<(i32, Seq<char>)>::empty());
    while rest.len() > 0
        invariant
            total == all.len(),
            rest@.len() <= total,
            pair_views(rest@) == all.subrange(total - rest@.len(), total as int),
            pair_views(out@) == stable_sort(all.subrange(0, total - rest@.len())),
        decreases rest.len(),
    {
        let ghost consumed = total - rest@.len();
        let ghost old_vec = rest@;
        let ghost old_rest = pair_views(rest@);
        assert(old_rest[0] == all[consumed]);
        let e = rest.remove(0);
        assert(old_rest[0] == (e.0, e.1@));
        assert(rest@ =~= old_vec.subrange(1, old_vec.len() as int));
        assert(pair_views(rest@) =~= old_rest.subrange(1, old_rest.len() as int));
        let key = e.0;
        let mut p: usize = 0;
        while p < out.len() && out[p].0 <= key
            invariant
                p <= out@.len(),
                first_greater(pair_views(out@), key, 0) == first_greater(
                    pair_views(out@),
                    key,
                    p as int,
                ),
            decreases out.len() - p,
        {
            p += 1;
        }
        let ghost pv = pair_views(out@);
        out.insert(p, e);
        proof {
            let pre = all.subrange(0, consumed + 1);
            assert(pre.drop_last() =~= all.subrange(0, consumed));
            assert(all[consumed] == (e.0, e.1@));
            assert(pre.last() == (e.0, e.1@));
            assert(pair_views(out@) =~= pv.insert(p as int, (e.0, e.1@)));
            assert(pair_views(rest@) =~= all.subrange(total - rest@.len(), total as int));
        }
    }
    assert(all.subrange(0, total as int) =~= all);
    out
}

/// Sort by `ind` and keep the first occurrence of each URL, in order.
pub fn dedup_preserving_order(entries: Vec<(i32, String)>) -> (seen: Vec<String>)
    ensures
        text::views(seen@) == dedup(pair_urls(pair_views(entries@))),
{
    let mut seen: Vec<String> = Vec::new();
    let ghost us = pair_urls(pair_views(entries@));
    let mut i: usize = 0;
    assert(us.subrange(0, 0) =~= Seq::<Seq<char>>::empty());
    assert(text::views(seen@) =~= Seq::<Seq<char>>::empty());
    while i < entries.len()
        invariant
            us == pair_urls(pair_views(entries@)),
            i <= entries@.len(),
            text::views(seen@) == dedup(us.subrange(0, i as int)),
        decreases entries.len() - i,
    {
        let url = entries[i].1.clone();
        assert(us[i as int] == url@);
        let ghost pre = us.subrange(0, i + 1);
        assert(pre.drop_last() =~= us.subrange(0, i as int));
        if !contains_string(&seen, &url) {
            let ghost before = text::views(seen@);
            seen.push(url);
            assert(text::views(seen@) =~= before.push(url@));
        }
        i += 1;
    }
    assert(us.subrange(0, entries@.len() as int) =~= us);
    seen
}

fn contains_string(v: &Vec<String>, s: &String) -> (r: bool)
    ensures
        r == text::views(v@).contains(s@),
{
    let mut k: usize = 0;
    while k < v.len()
        invariant
            k <= v@.len(),
            forall|j: int| 0 <= j < k ==> v@[j]@ != s@,
        decreases v.len() - k,
    {
        if v[k] == *s {
            assert(text::views(v@)[k as int] == s@);
            return true;
        }
        k += 1;
    }
    proof {
        if text::views(v@).contains(s@) {
            let j = choose|j: int| 0 <= j < text::views(v@).len() && text::views(v@)[j] == s@;
            assert(v@[j]@ == s@);
        }
    }
    false
}

/// The `http(s)://` entries with repeats after the first occurrence dropped.
pub open spec fn unique_http(s: Seq<Seq<char>>) -> Seq<Seq<char>>
    decreases s.len(),
{
    if s.len() == 0 {
        s
    } else {
        let d = unique_http(s.drop_last());
        if text::is_http_url(s.last()) && !d.contains(s.last()) {
            d.push(s.last())
        } else {
            d
        }
    }
}

pub open spec fn has_http(s: Seq<Seq<char>>) -> bool {
    exists|k: int| 0 <= k < s.len() && text::is_http_url(#[trigger] s[k])
}

/// The array text of `body` that starts at the `imagePaths:` array.
pub open spec fn paths_array_text(body: Seq<char>) -> Option<Seq<char>> {
    let b = vstd::utf8::encode_utf8(body);
    match paths_array_from(b, 0) {
        Some(st) => Some(vstd::utf8::decode_utf8(b.subrange(st, b.len() as int))),
        None => None,
    }
}

/// The page list a script body carries in the current format: its
/// `imagePaths:` array when it holds an `http(s)://` entry, deduplicated and
/// without the other entries.
pub open spec fn paths_in_script(body: Seq<char>) -> Option<Seq<Seq<char>>> {
    match paths_array_text(body) {
        None => None,
        Some(raw) => {
            let es = json_string_array(raw);
            if has_http(es) {
                Some(unique_http(es))
            } else {
                None
            }
        },
    }
}

/// The current-format page list over the scripts from index `i` on; a
/// script whose body cannot be read ends the search.
pub open spec fn paths_payload(scripts: Seq<Option<Seq<char>>>, i: int) -> Option<Seq<Seq<char>>>
    decreases scripts.len() - i,
{
    if i < 0 || i >= scripts.len() {
        None
    } else {
        match scripts[i] {
            None => None,
            Some(body) => match paths_in_script(body) {
                None => paths_payload(scripts, i + 1),
                Some(urls) => Some(urls),
            },
        }
    }
}

pub open spec fn script_views(v: Seq<Option<String>>) -> Seq<Option<Seq<char>>> {
    v.map_values(|o: Option<String>| text::opt_view(o))
}

fn unique_http_exec(entries: &Vec<String>) -> (seen: Vec<String>)
    ensures
        text::views(seen@) == unique_http(text::views(entries@)),
{
    let ghost es = text::views(entries@);
    let mut seen: Vec<String> = Vec::new();
    let mut i: usize = 0;
    assert(es.subrange(0, 0) =~= Seq::<Seq<char>>::empty());
    assert(text::views(seen@) =~= Seq::<Seq<char>>::empty());
    while i < entries.len()
        invariant
            es == text::views(entries@),
            i <= entries@.len(),
            text::views(seen@) == unique_http(es.subrange(0, i as int)),
        decreases entries.len() - i,
    {
        let url = entries[i].clone();
        let ghost pre = es.subrange(0, i + 1);
        assert(pre.drop_last() =~= es.subrange(0, i as int));
        assert(pre.last() == url@);
        let ucs = text::to_chars(url.as_str());
        if text::is_http_url_exec(ucs.as_slice()) && !contains_string(&seen, &url) {
            let ghost before = text::views(seen@);
            seen.push(url);
            assert(text::views(seen@) =~= before.push(url@));
        }
        i += 1;
    }
    assert(es.subrange(0, entries@.len() as int) =~= es);
    seen
}

fn has_http_exec(entries: &Vec<String>) -> (r: bool)
    ensures
        r == has_http(text::views(entries@)),
{
    let mut k: usize = 0;
    while k < entries.len()
        invariant
            k <= entries@.len(),
            forall|j: int| 0 <= j < k ==> !text::is_http_url(#[trigger] entries@[j]@),
        decreases entries.len() - k,
    {
        let ucs = text::to_chars(entries[k].as_str());
        if text::is_http_url_exec(ucs.as_slice()) {
            assert(text::views(entries@)[k as int] == entries@[k as int]@);
            return true;
        }
        k += 1;
    }
    proof {
        if has_http(text::views(entries@)) {
            let j = choose|j: int|
                0 <= j < text::views(entries@).len() && text::is_http_url(
                    #[trigger] text::views(entries@)[j],
                );
            assert(entries@[j]@ == text::views(entries@)[j]);
        }
    }
    false
}

/// The page list a script body carries in the current format, if any.
fn paths_in_script_exec(body: &String) -> (r: Option<Vec<String>>)
    ensures
        match paths_in_script(body@) {
            Some(urls) => r matches Some(v) && text::views(v@) == urls,
            None => r is None,
        },
{
    let b = body.as_str();
    let start = match find_image_paths_array(b) {
        Some(s) => s,
        None => {
            return None;
        },
    };
    let ghost bytes = vstd::utf8::encode_utf8(body@);
    proof {
        vstd::utf8::encode_utf8_valid_utf8(body@);
        lemma_paths_array_from(bytes, 0);
        text::lemma_ascii_boundary(bytes, start as int);
    }
    let (_, raw) = b.split_at(start);
    proof {
        assert(vstd::utf8::encode_utf8(raw@) =~= bytes.subrange(start as int, bytes.len() as int));
        vstd::utf8::encode_utf8_decode_utf8(raw@);
    }
    let entries = extract_json_string_array(raw);
    if has_http_exec(&entries) {
        Some(unique_http_exec(&entries))
    } else {
        None
    }
}

proof fn lemma_paths_array_from(b: Seq<u8>, start: int)
    requires
        0 <= start,
    ensures
        paths_array_from(b, start) matches Some(i) ==> 0 <= i < b.len() && b[i] == 0x5b,
    decreases b.len() - start,
{
    if start <= b.len() {
        match text::find_from(b, image_paths_marker(), start) {
            None => {},
            Some(p) => {
                text::lemma_find_from(b, image_paths_marker(), start);
                match array_after_lhs(b, p + 11) {
                    Some(i) => {},
                    None => if p >= start && p + 11 <= b.len() {
                        lemma_paths_array_from(b, p + 11);
                    },
                }
            },
        }
    }
}

/// Scan the scripts for the current `imagePaths:[…]` shape and return the
/// deduplicated `http(s)://` page URLs in source order; `None` when no script
/// carries one (or a script body could not be read), so the caller falls
/// back to the legacy scanner.
pub fn parse_image_paths_payload(scripts: &Vec<Option<String>>) -> (r: Option<Vec<String>>)
    ensures
        match paths_payload(script_views(scripts@), 0) {
            Some(urls) => r matches Some(v) && text::views(v@) == urls,
            None => r is None,
        },
{
    let ghost sv = script_views(scripts@);
    let mut i: usize = 0;
    while i < scripts.len()
        invariant
            sv == script_views(scripts@),
            i <= scripts@.len(),
            paths_payload(sv, i as int) == paths_payload(sv, 0),
        decreases scripts.len() - i,
    {
        assert(sv[i as int] == text::opt_view(scripts@[i as int]));
        match &scripts[i] {
            None => {
                return None;
            },
            Some(body) => {
                if let Some(urls) = paths_in_script_exec(body) {
                    return Some(urls);
                }
            },
        }
        i += 1;
    }
    None
}

/// `s` starts with the chunk call marker `self.__next_f.push`.
pub open spec fn is_rsc_script(s: Seq<char>) -> bool {
    text::spec_starts_with(s, "self.__next_f.push"@)
}

/// The unescaped concatenation of every chunk script from index `i` on,
/// appended to `acc`.
pub open spec fn rsc_payload(scripts: Seq<Option<Seq<char>>>, i: int, acc: Seq<char>) -> Seq<char>
    decreases scripts.len() - i,
{
    if i < 0 || i >= scripts.len() {
        acc
    } else {
        match scripts[i] {
            None => rsc_payload(scripts, i + 1, acc),
            Some(d) => if !is_rsc_script(d) {
                rsc_payload(scripts, i + 1, acc)
            } else {
                match rsc_chunk(d) {
                    None => rsc_payload(scripts, i + 1, acc),
                    Some(inner) => rsc_payload(scripts, i + 1, unescape_chunk(inner, 0, acc)),
                }
            },
        }
    }
}

/// The chapter's page URLs: the current-format list if a script carries one,
/// else the legacy `(imageUrl, ind)` pairs sorted by `ind` with repeated URLs
/// dropped.
pub open spec fn chapter_pages(scripts: Seq<Option<Seq<char>>>) -> Seq<Seq<char>> {
    match paths_payload(scripts, 0) {
        Some(urls) => urls,
        None => dedup(
            pair_urls(
                stable_sort(
                    url_pairs(
                        vstd::utf8::encode_utf8(rsc_payload(scripts, 0, Seq::empty())),
                        0,
                        Seq::empty(),
                    ),
                ),
            ),
        ),
    }
}

/// The number a page-count widget shows: the digits after its `/`
/// (`1/73頁` shows 73); `None` without a widget, or when no number follows
/// the `/` or it does not fit.
pub open spec fn widget_count(widget: Option<String>) -> Option<u32> {
    match widget {
        None => None,
        Some(t) => match text::spec_find(t@, seq!['/']) {
            None => None,
            Some(p) => {
                let digits = text::take_while(
                    t@.subrange(p + 1, t@.len() as int),
                    |c: char| text::is_ascii_digit(c),
                );
                match num::parse_unsigned(digits, 10, 0xffff_ffff) {
                    Some(v) => Some(v as u32),
                    None => None,
                }
            },
        },
    }
}

/// The page count a chapter page's widget (`div.text-right.mr-4`, text
/// `1/N頁`) announces.
pub fn page_count_from_widget(widget: &Option<String>) -> (r: Option<u32>)
    ensures
        r == widget_count(*widget),
{
    let t = match widget {
        Some(t) => t,
        None => {
            return None;
        },
    };
    let cs = text::to_chars(t.as_str());
    let slash = ['/'];
    assert(slash@ == seq!['/']);
    proof {
        text::lemma_find_from(cs@, slash@, 0);
    }
    let p = match text::find_exec(cs.as_slice(), &slash) {
        Some(p) => p,
        None => {
            return None;
        },
    };
    assert(p + 1 <= cs@.len());
    let rest = text::sub_chars(cs.as_slice(), p + 1, cs.len());
    let mut d: usize = 0;
    assert(rest@.subrange(0, 0) + text::take_while(rest@, |c: char| text::is_ascii_digit(c))
        =~= text::take_while(rest@, |c: char| text::is_ascii_digit(c)));
    assert(rest@.subrange(0, rest@.len() as int) =~= rest@);
    while d < rest.len() && text::is_ascii_digit_exec(rest[d])
        invariant
            d <= rest@.len(),
            text::take_while(rest@, |c: char| text::is_ascii_digit(c)) == rest@.subrange(0, d as int)
                + text::take_while(
                rest@.subrange(d as int, rest@.len() as int),
                |c: char| text::is_ascii_digit(c),
            ),
        decreases rest.len() - d,
    {
        let ghost r = rest@.subrange(d as int, rest@.len() as int);
        assert(r.drop_first() =~= rest@.subrange(d + 1, rest@.len() as int));
        assert(rest@.subrange(0, d + 1) =~= rest@.subrange(0, d as int) + seq![r[0]]);
        d += 1;
    }
    let ghost tl = rest@.subrange(d as int, rest@.len() as int);
    assert(text::take_while(tl, |c: char| text::is_ascii_digit(c)) =~= Seq::<char>::empty());
    let digits = text::sub_chars(rest.as_slice(), 0, d);
    assert(digits@ =~= text::take_while(rest@, |c: char| text::is_ascii_digit(c)));
    num::parse_dec_u32(digits.as_slice())
}

/// The page count the widget announces (0 without one) and the page URLs
/// of a chapter, from the bodies of its `<script>` elements (`None` for a
/// script whose body could not be read). The count is informational: the
/// widget is often stale, and the list comes from the scripts alone.
pub fn parse_chapter_pages(widget: &Option<String>, scripts: &Vec<Option<String>>) -> (r: (
    u32,
    Vec<String>,
))
    ensures
        r.0 == match widget_count(*widget) {
            Some(n) => n,
            None => 0,
        },
        text::views(r.1@) == chapter_pages(script_views(scripts@)),
{
    let count = match page_count_from_widget(widget) {
        Some(n) => n,
        None => 0,
    };
    if let Some(urls) = parse_image_paths_payload(scripts) {
        return (count, urls);
    }
    let ghost sv = script_views(scripts@);
    let marker = text::to_chars("self.__next_f.push");
    let mut payload = String::new();
    let mut i: usize = 0;
    while i < scripts.len()
        invariant
            sv == script_views(scripts@),
            marker@ == "self.__next_f.push"@,
            i <= scripts@.len(),
            rsc_payload(sv, i as int, payload@) == rsc_payload(sv, 0, Seq::empty()),
        decreases scripts.len() - i,
    {
        assert(sv[i as int] == text::opt_view(scripts@[i as int]));
        if let Some(data) = &scripts[i] {
            let dcs = text::to_chars(data.as_str());
            if text::starts_with_exec(dcs.as_slice(), marker.as_slice()) {
                if let Some(inner) = extract_rsc_chunk(data.as_str()) {
                    unescape_json_string_into(inner, &mut payload);
                }
            }
        }
        i += 1;
    }
    let entries = extract_image_url_ind_pairs(payload.as_str());
    proof {
        assert(pair_urls(pair_views(entries@)) =~= pair_urls(
            stable_sort(url_pairs(vstd::utf8::encode_utf8(payload@), 0, Seq::empty())),
        ));
    }
    (count, dedup_preserving_order(entries))
}

proof fn lemma_unique_http(s: Seq<Seq<char>>)
    ensures
        unique_http(s).no_duplicates(),
        forall|i: int|
            0 <= i < unique_http(s).len() ==> text::is_http_url(#[trigger] unique_http(s)[i]),
    decreases s.len(),
{
    if s.len() > 0 {
        lemma_unique_http(s.drop_last());
        let d = unique_http(s.drop_last());
        if text::is_http_url(s.last()) && !d.contains(s.last()) {
            let e = d.push(s.last());
            assert forall|i: int, j: int|
                (0 <= i < e.len() && 0 <= j < e.len() && i != j) implies e[i] != e[j] by {
                if i == d.len() {
                    assert(e[j] == d[j]);
                } else if j == d.len() {
                    assert(e[i] == d[i]);
                }
            }
        }
    }
}

proof fn lemma_paths_payload_found(scripts: Seq<Option<Seq<char>>>, i: int)
    requires
        0 <= i,
    ensures
        paths_payload(scripts, i) matches Some(u) ==> u.no_duplicates() && forall|k: int|
            0 <= k < u.len() ==> text::is_http_url(#[trigger] u[k]),
    decreases scripts.len() - i,
{
    if i < scripts.len() {
        if let Some(body) = scripts[i] {
            match paths_array_text(body) {
                Some(raw) => lemma_unique_http(json_string_array(raw)),
                None => {},
            }
            lemma_paths_payload_found(scripts, i + 1);
        }
    }
}

proof fn lemma_url_pairs_http(b: Seq<u8>, i: int, acc: Seq<(i32, Seq<char>)>)
    requires
        forall|k: int| 0 <= k < acc.len() ==> text::is_http_url(#[trigger] acc[k].1),
    ensures
        forall|k: int|
            0 <= k < url_pairs(b, i, acc).len() ==> text::is_http_url(
                #[trigger] url_pairs(b, i, acc)[k].1,
            ),
    decreases b.len() - i,
{
    if i < 0 || i + 12 >= b.len() {
        assert(url_pairs(b, i, acc) == acc);
    } else if !text::matches_at(b, image_url_marker(), i) {
        assert(url_pairs(b, i, acc) == url_pairs(b, i + 1, acc));
        lemma_url_pairs_http(b, i + 1, acc);
    } else {
        let us = i + 12;
        let ue = quote_end(b, us);
        if ue < us || ue >= b.len() {
            assert(url_pairs(b, i, acc) == acc);
        } else {
            let url = vstd::utf8::decode_utf8(b.subrange(us, ue));
            let acc2 = if text::is_http_url(url) {
                match ind_value(b, ue) {
                    Some(n) => acc.push((n, url)),
                    None => acc,
                }
            } else {
                acc
            };
            assert forall|k: int| 0 <= k < acc2.len() implies text::is_http_url(
                #[trigger] acc2[k].1,
            ) by {
                if k < acc.len() {
                    assert(acc2[k] == acc[k]);
                }
            }
            assert(url_pairs(b, i, acc) == url_pairs(b, ue + 1, acc2));
            lemma_url_pairs_http(b, ue + 1, acc2);
        }
    }
}

/// Every page of a chapter is an `http(s)://` URL, and no page URL appears
/// twice, whichever format the chapter page uses.
pub proof fn law_chapter_pages_unique_http(scripts: Seq<Option<Seq<char>>>)
    ensures
        chapter_pages(scripts).no_duplicates(),
        forall|k: int|
            0 <= k < chapter_pages(scripts).len() ==> text::is_http_url(
                #[trigger] chapter_pages(scripts)[k],
            ),
{
    lemma_paths_payload_found(scripts, 0);
    if paths_payload(scripts, 0) is None {
        let payload = rsc_payload(scripts, 0, Seq::empty());
        let pairs = url_pairs(vstd::utf8::encode_utf8(payload), 0, Seq::empty());
        lemma_url_pairs_http(vstd::utf8::encode_utf8(payload), 0, Seq::empty());
        let sorted = stable_sort(pairs);
        law_stable_sort_orders_by_ind(pairs);
        let us = pair_urls(sorted);
        law_dedup_keeps_each_url_once(us);
        let d = dedup(us);
        assert forall|k: int| 0 <= k < d.len() implies text::is_http_url(#[trigger] d[k]) by {
            assert(d.contains(d[k]));
            assert(us.contains(d[k]));
            let j = choose|j: int| 0 <= j < us.len() && us[j] == d[k];
            let p = sorted[j];
            assert(sorted.contains(p));
            vstd::seq_lib::to_multiset_contains(sorted, p);
            vstd::seq_lib::to_multiset_contains(pairs, p);
            assert(pairs.contains(p));
            let m = choose|m: int| 0 <= m < pairs.len() && pairs[m] == p;
            assert(text::is_http_url(pairs[m].1));
        }
    }
}

// ---------- URLs and page records ----------

/// `path` if it is already an `http(s)://` URL, else `base` followed by it.
pub open spec fn chapter_url(path: Seq<char>, base: Seq<char>) -> Seq<char> {
    if text::is_http_url(path) {
        path
    } else {
        base + path
    }
}

/// Resolve a chapter path into an absolute URL: absolute paths pass
/// through, relative ones get `base` prepended.
pub fn resolve_chapter_url(path: &str, base: &str) -> (r: String)
    ensures
        r@ == chapter_url(path@, base@),
{
    let pcs = text::to_chars(path);
    if text::is_http_url_exec(pcs.as_slice()) {
        String::from_str(path)
    } else {
        let mut r = String::from_str(base);
        r.append(path);
        r
    }
}

/// The context of a scrambled page: `scramble` = `1`.
pub open spec fn scramble_context() -> Seq<(Seq<char>, Seq<char>)> {
    seq![("scramble"@, "1"@)]
}

pub open spec fn page_for(url: Seq<char>, scramble: bool) -> PageView {
    PageView {
        url,
        context: if scramble {
            Some(scramble_context())
        } else {
            None
        },
    }
}

/// Build page records from `(url, is_scrambled)` pairs; scrambled pages
/// carry the `scramble` = `1` context.
pub fn build_pages(urls: Vec<(String, bool)>) -> (pages: Vec<Page>)
    ensures
        pages@.len() == urls@.len(),
        forall|i: int|
            0 <= i < urls@.len() ==> #[trigger] pages@[i]@ == page_for(urls@[i].0@, urls@[i].1),
{
    let mut pages: Vec<Page> = Vec::new();
    let mut i: usize = 0;
    while i < urls.len()
        invariant
            i <= urls@.len(),
            pages@.len() == i,
            forall|j: int|
                0 <= j < i ==> #[trigger] pages@[j]@ == page_for(urls@[j].0@, urls@[j].1),
        decreases urls.len() - i,
    {
        let url = urls[i].0.clone();
        let scramble = urls[i].1;
        let page = if scramble {
            let mut ctx: Vec<(String, String)> = Vec::new();
            ctx.push((String::from_str("scramble"), String::from_str("1")));
            assert(ctx@.map_values(|kv: (String, String)| (kv.0@, kv.1@)) =~= scramble_context());
            Page { url, context: Some(ctx) }
        } else {
            Page { url, context: None }
        };
        pages.push(page);
        i += 1;
    }
    pages
}

} // verus!
