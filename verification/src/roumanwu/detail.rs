//! Manga detail and chapter-list assembly.
//!
//! The detail page renders title, cover, author and status as rows of
//! `<dl class="site-book-data">` (`<dt>LABEL</dt><dd>VALUE</dd>`), the
//! chapter list as anchors inside `<div class="site-chapters">`, and the
//! synopsis as `<div class="site-book-synopsis"><p>…</p></div>`. The JSON-LD
//! script's `description` is the fallback synopsis; its body may carry
//! HTML-encoded (even doubly encoded) characters.
use vstd::prelude::*;

use crate::model::{Chapter, ContentRating, Manga, MangaStatus, Viewer};
use crate::model;
use crate::num;
use crate::roumanwu::chapter;
use crate::text;

verus! {

// ---------- Entity decoding ----------

/// Characters that end the search for an entity's `;`.
pub open spec fn entity_stop(c: char) -> bool {
    c == '&' || c == '>' || c == '<' || c == '"' || c == '\'' || c == ' ' || c == '\t' || c
        == '\n' || c == '\r' || (c as u32) >= 128
}

/// The `;` closing an entity that starts at `&` index `i`: the first `;`
/// among the next eleven characters, unless a stop character comes first.
pub open spec fn semi_scan(cs: Seq<char>, j: int, lim: int) -> Option<int>
    decreases lim - j,
{
    if j < 0 || j >= lim || j >= cs.len() {
        None
    } else if cs[j] == ';' {
        Some(j)
    } else if entity_stop(cs[j]) {
        None
    } else {
        semi_scan(cs, j + 1, lim)
    }
}

/// The character an entity name (between `&` and `;`) stands for:
/// `quot`, `amp`, `#039`, `#NNNN` (decimal) and `#xHHHH` / `#XHHHH`.
pub open spec fn entity_char(e: Seq<char>) -> Option<char> {
    if e == "quot"@ {
        Some('"')
    } else if e == "amp"@ {
        Some('&')
    } else if e == "#039"@ {
        Some('\'')
    } else if e.len() > 0 && e[0] == '#' {
        let num = e.drop_first();
        let code = if num.len() > 0 && (num[0] == 'x' || num[0] == 'X') {
            num::parse_unsigned(num.drop_first(), 16, 0xffff_ffff)
        } else {
            num::parse_unsigned(num, 10, 0xffff_ffff)
        };
        match code {
            Some(v) => if num::is_scalar_value(v as u32) {
                Some((v as u32) as char)
            } else {
                None
            },
            None => None,
        }
    } else {
        None
    }
}

/// One decoding pass from index `i`, appended to `out`.
pub open spec fn decode_pass(cs: Seq<char>, i: int, out: Seq<char>) -> Seq<char>
    decreases cs.len() - i,
{
    if i < 0 || i >= cs.len() {
        out
    } else if cs[i] == '&' {
        let lim = if cs.len() < i + 12 {
            cs.len() as int
        } else {
            i + 12
        };
        match semi_scan(cs, i + 1, lim) {
            Some(j) => match entity_char(cs.subrange(i + 1, j)) {
                Some(c) => if j < i || j >= cs.len() {
                    out
                } else {
                    decode_pass(cs, j + 1, out.push(c))
                },
                None => decode_pass(cs, i + 1, out.push(cs[i])),
            },
            None => decode_pass(cs, i + 1, out.push(cs[i])),
        }
    } else {
        decode_pass(cs, i + 1, out.push(cs[i]))
    }
}

/// Passes repeated until one changes nothing (each pass that changes the
/// text shortens it, so this ends).
pub open spec fn decode_fixpoint(s: Seq<char>) -> Seq<char>
    decreases s.len(),
{
    let next = decode_pass(s, 0, Seq::empty());
    if next == s {
        s
    } else if next.len() < s.len() {
        decode_fixpoint(next)
    } else {
        s
    }
}

proof fn lemma_semi_scan(cs: Seq<char>, j: int, lim: int)
    requires
        0 <= j,
    ensures
        semi_scan(cs, j, lim) matches Some(k) ==> j <= k < lim && k < cs.len() && cs[k] == ';',
    decreases lim - j,
{
    if j < lim && j < cs.len() && cs[j] != ';' && !entity_stop(cs[j]) {
        lemma_semi_scan(cs, j + 1, lim);
    }
}

/// A pass never lengthens the text, and one that keeps its length copies
/// it unchanged.
proof fn lemma_decode_pass_len(cs: Seq<char>, i: int, out: Seq<char>)
    requires
        0 <= i <= cs.len(),
    ensures
        decode_pass(cs, i, out).len() <= out.len() + cs.len() - i,
        decode_pass(cs, i, out).len() == out.len() + cs.len() - i ==> decode_pass(cs, i, out)
            == out + cs.subrange(i, cs.len() as int),
    decreases cs.len() - i,
{
    if i == cs.len() {
        assert(out + cs.subrange(i, cs.len() as int) =~= out);
    } else {
        assert(out.push(cs[i]) + cs.subrange(i + 1, cs.len() as int) =~= out + cs.subrange(
            i,
            cs.len() as int,
        ));
        if cs[i] == '&' {
            let lim = if cs.len() < i + 12 {
                cs.len() as int
            } else {
                i + 12
            };
            lemma_semi_scan(cs, i + 1, lim);
            match semi_scan(cs, i + 1, lim) {
                Some(j) => match entity_char(cs.subrange(i + 1, j)) {
                    Some(c) => {
                        lemma_decode_pass_len(cs, j + 1, out.push(c));
                    },
                    None => {
                        lemma_decode_pass_len(cs, i + 1, out.push(cs[i]));
                    },
                },
                None => {
                    lemma_decode_pass_len(cs, i + 1, out.push(cs[i]));
                },
            }
        } else {
            lemma_decode_pass_len(cs, i + 1, out.push(cs[i]));
        }
    }
}

/// Decoding stops at a text that one more pass leaves unchanged: entities
/// nested to any depth come out fully decoded.
pub proof fn law_decoding_reaches_fixpoint(s: Seq<char>)
    ensures
        decode_pass(decode_fixpoint(s), 0, Seq::empty()) == decode_fixpoint(s),
    decreases s.len(),
{
    let next = decode_pass(s, 0, Seq::empty());
    lemma_decode_pass_len(s, 0, Seq::empty());
    assert(Seq::<char>::empty() + s.subrange(0, s.len() as int) =~= s);
    if next != s {
        law_decoding_reaches_fixpoint(next);
    }
}

fn entity_stop_exec(c: char) -> (r: bool)
    ensures
        r == entity_stop(c),
{
    c == '&' || c == '>' || c == '<' || c == '"' || c == '\'' || c == ' ' || c == '\t' || c
        == '\n' || c == '\r' || (c as u32) >= 128
}

fn eq_chars(a: &[char], b: &[char]) -> (r: bool)
    ensures
        r == (a@ == b@),
{
    if a.len() != b.len() {
        return false;
    }
    let r = text::matches_at_exec(a, b, 0);
    assert(a@.subrange(0, b@.len() as int) =~= a@);
    r
}

fn entity_char_exec(e: &[char]) -> (r: Option<char>)
    ensures
        r == entity_char(e@),
{
    let quot = text::to_chars("quot");
    let amp = text::to_chars("amp");
    let apos = text::to_chars("#039");
    if eq_chars(e, quot.as_slice()) {
        return Some('"');
    }
    if eq_chars(e, amp.as_slice()) {
        return Some('&');
    }
    if eq_chars(e, apos.as_slice()) {
        return Some('\'');
    }
    if e.len() > 0 && e[0] == '#' {
        let num = text::sub_chars(e, 1, e.len());
        assert(num@ =~= e@.drop_first());
        let code = if num.len() > 0 && (num[0] == 'x' || num[0] == 'X') {
            let hex = text::sub_chars(num.as_slice(), 1, num.len());
            assert(hex@ =~= num@.drop_first());
            num::parse_hex_u32(hex.as_slice())
        } else {
            num::parse_dec_u32(num.as_slice())
        };
        match code {
            Some(v) => {
                let r = num::char_from_u32(v);
                proof {
                    if let Some(c) = r {
                        vstd::utf8::char_u32_cast(c, v);
                    }
                }
                r
            },
            None => None,
        }
    } else {
        None
    }
}

fn find_semi(s: &[char], from: usize, lim: usize) -> (r: Option<usize>)
    requires
        lim <= s@.len(),
    ensures
        match r {
            Some(k) => semi_scan(s@, from as int, lim as int) == Some(k as int),
            None => semi_scan(s@, from as int, lim as int) is None,
        },
{
    let mut j = from;
    while j < lim
        invariant
            from <= j,
            lim <= s@.len(),
            semi_scan(s@, from as int, lim as int) == semi_scan(s@, j as int, lim as int),
        decreases lim - j,
    {
        if s[j] == ';' {
            return Some(j);
        }
        if entity_stop_exec(s[j]) {
            return None;
        }
        j += 1;
    }
    None
}

/// One pass of HTML-entity decoding: `&quot;`, `&amp;`, `&#039;` and
/// numeric entities `&#NNNN;` / `&#xHHHH;` are unwrapped; everything else is
/// copied character by character.
pub fn decode_entities_pass(s: &[char]) -> (out: Vec<char>)
    ensures
        out@ == decode_pass(s@, 0, Seq::empty()),
{
    let mut out: Vec<char> = Vec::new();
    let n = s.len();
    let mut i: usize = 0;
    while i < n
        invariant
            n == s@.len(),
            i <= n,
            decode_pass(s@, i as int, out@) == decode_pass(s@, 0, Seq::empty()),
        decreases n - i,
    {
        if s[i] == '&' {
            let lim = if n - i < 12 {
                n
            } else {
                i + 12
            };
            let semi = find_semi(s, i + 1, lim);
            proof {
                lemma_semi_scan(s@, i + 1, lim as int);
            }
            if let Some(k) = semi {
                let ent = text::sub_chars(s, i + 1, k);
                if let Some(c) = entity_char_exec(ent.as_slice()) {
                    out.push(c);
                    i = k + 1;
                    continue;
                }
            }
        }
        out.push(s[i]);
        i += 1;
    }
    out
}

/// Decode the entities a `<script>` body may carry, repeating the pass
/// until it changes nothing, so multiply encoded characters
/// (`&amp;#25551;`) come out decoded.
pub fn decode_script_entities(s: &str) -> (r: String)
    ensures
        r@ == decode_fixpoint(s@),
{
    let mut out = text::to_chars(s);
    loop
        invariant
            decode_fixpoint(s@) == decode_fixpoint(out@),
        ensures
            decode_fixpoint(s@) == out@,
        decreases out@.len(),
    {
        let next = decode_entities_pass(out.as_slice());
        if eq_chars(next.as_slice(), out.as_slice()) {
            assert(decode_fixpoint(out@) == out@);
            break;
        }
        proof {
            lemma_decode_pass_len(out@, 0, Seq::empty());
            assert(Seq::<char>::empty() + out@.subrange(0, out@.len() as int) =~= out@);
        }
        out = next;
    }
    let r = text::string_of(out.as_slice(), 0, out.len());
    assert(out@.subrange(0, out@.len() as int) =~= out@);
    r
}

// ---------- JSON string fields ----------

/// Index of the first `"` in `r` at or after `k` that is not preceded by a
/// backslash, or `r.len()`.
pub open spec fn closing_quote(r: Seq<char>, k: int) -> int
    decreases r.len() - k,
{
    if k < 0 || k >= r.len() {
        k
    } else if r[k] == '"' && (k == 0 || r[k - 1] != '\\') {
        k
    } else {
        closing_quote(r, k + 1)
    }
}

/// JSON unescaping as the detail page needs it: simple escapes, `\uXXXX`
/// (up to four characters), any other escaped character kept without its
/// backslash, and a trailing lone backslash dropped.
pub open spec fn unescape_json(cs: Seq<char>, i: int, out: Seq<char>) -> Seq<char>
    decreases cs.len() - i,
{
    if i < 0 || i >= cs.len() {
        out
    } else if cs[i] != '\\' {
        unescape_json(cs, i + 1, out.push(cs[i]))
    } else if i + 1 >= cs.len() {
        out
    } else {
        let n = cs[i + 1];
        match chapter::simple_escape(n) {
            Some(e) => unescape_json(cs, i + 2, out.push(e)),
            None => if n == 'u' {
                let end = if cs.len() < i + 6 {
                    cs.len() as int
                } else {
                    i + 6
                };
                unescape_json(
                    cs,
                    end,
                    chapter::push_opt(out, chapter::hex_char(cs.subrange(i + 2, end))),
                )
            } else {
                unescape_json(cs, i + 2, out.push(n))
            },
        }
    }
}

/// The field needle `"key":"`.
pub open spec fn field_needle(key: Seq<char>) -> Seq<char> {
    seq!['"'] + key + "\":\""@
}

/// The string value of the first `"key":"…"` in `json`, unescaped; `None`
/// when the key is missing, the value is empty or unterminated.
pub open spec fn top_level_string(json: Seq<char>, key: Seq<char>) -> Option<Seq<char>> {
    match text::spec_find(json, field_needle(key)) {
        None => None,
        Some(p) => {
            let rest = json.subrange(p + field_needle(key).len(), json.len() as int);
            let e = closing_quote(rest, 0);
            if e == 0 || e >= rest.len() {
                None
            } else {
                Some(unescape_json(rest.subrange(0, e), 0, Seq::empty()))
            }
        },
    }
}

fn unescape_json_exec(cs: &[char]) -> (out: Vec<char>)
    ensures
        out@ == unescape_json(cs@, 0, Seq::empty()),
{
    let mut out: Vec<char> = Vec::new();
    let n = cs.len();
    let mut i: usize = 0;
    while i < n
        invariant
            n == cs@.len(),
            i <= n,
            unescape_json(cs@, i as int, out@) == unescape_json(cs@, 0, Seq::empty()),
        decreases n - i,
    {
        let c = cs[i];
        if c != '\\' {
            out.push(c);
            i += 1;
        } else if i + 1 >= n {
            return out;
        } else {
            let nx = cs[i + 1];
            match chapter::simple_escape_exec(nx) {
                Some(e) => {
                    out.push(e);
                    i += 2;
                },
                None => {
                    if nx == 'u' {
                        let end = if n - i < 6 {
                            n
                        } else {
                            i + 6
                        };
                        let hex = text::sub_chars(cs, i + 2, end);
                        if let Some(h) = chapter::hex_char_exec(hex.as_slice()) {
                            out.push(h);
                        }
                        i = end;
                    } else {
                        out.push(nx);
                        i += 2;
                    }
                },
            }
        }
    }
    out
}

/// Unescape a JSON-encoded string (the subset the JSON-LD block uses).
pub fn unescape_json_string(raw: &str) -> (r: String)
    ensures
        r@ == unescape_json(raw@, 0, Seq::empty()),
{
    let cs = text::to_chars(raw);
    let out = unescape_json_exec(cs.as_slice());
    text::string_of(out.as_slice(), 0, out.len())
}

pub(crate) fn closing_quote_exec(rest: &[char]) -> (r: usize)
    ensures
        r == closing_quote(rest@, 0),
{
    let mut end: usize = 0;
    while end < rest.len()
        invariant
            end <= rest@.len(),
            closing_quote(rest@, 0) == closing_quote(rest@, end as int),
        decreases rest.len() - end,
    {
        if rest[end] == '"' && (end == 0 || rest[end - 1] != '\\') {
            return end;
        }
        end += 1;
    }
    end
}

/// Extract a top-level string field `"key":"value"` from a JSON object.
/// Returns `None` when the key is missing or the value is empty or
/// unterminated.
pub fn json_top_level_string(json: &str, key: &str) -> (r: Option<String>)
    ensures
        text::opt_view(r) == top_level_string(json@, key@),
{
    let cs = text::to_chars(json);
    let mut needle: Vec<char> = Vec::new();
    needle.push('"');
    let kcs = text::to_chars(key);
    text::extend_chars(&mut needle, kcs.as_slice(), 0, kcs.len());
    let tail = text::to_chars("\":\"");
    text::extend_chars(&mut needle, tail.as_slice(), 0, tail.len());
    assert(kcs@.subrange(0, kcs@.len() as int) =~= kcs@);
    assert(tail@.subrange(0, tail@.len() as int) =~= tail@);
    assert(needle@ =~= field_needle(key@));
    proof {
        text::lemma_find_from(cs@, needle@, 0);
    }
    let n = cs.len();
    let start = match text::find_exec(cs.as_slice(), needle.as_slice()) {
        None => {
            return None;
        },
        Some(p) => {
            assert(p + needle@.len() <= n);
            p + needle.len()
        },
    };
    let rest = text::sub_chars(cs.as_slice(), start, n);
    let end = closing_quote_exec(rest.as_slice());
    if end == 0 || end >= rest.len() {
        return None;
    }
    let raw = text::sub_chars(rest.as_slice(), 0, end);
    let out = unescape_json_exec(raw.as_slice());
    Some(text::string_of(out.as_slice(), 0, out.len()))
}

// ---------- Status, entities, URLs ----------

/// Status named by a `狀態` value.
pub open spec fn status_of(value: Seq<char>) -> MangaStatus {
    if text::spec_contains(value, "連載中"@) {
        MangaStatus::Ongoing
    } else if text::spec_contains(value, "完結"@) {
        MangaStatus::Completed
    } else if text::spec_contains(value, "休刊"@) || text::spec_contains(value, "停刊"@) {
        MangaStatus::Hiatus
    } else {
        MangaStatus::Unknown
    }
}

/// Map a `狀態` value (e.g. `連載中`, `完結`, `休刊`) to a status.
pub fn manga_status_from_text(value: &str) -> (r: MangaStatus)
    ensures
        r == status_of(value@),
{
    let cs = text::to_chars(value);
    let ongoing = text::to_chars("連載中");
    let completed = text::to_chars("完結");
    let hiatus = text::to_chars("休刊");
    let stopped = text::to_chars("停刊");
    if text::contains_exec(cs.as_slice(), ongoing.as_slice()) {
        MangaStatus::Ongoing
    } else if text::contains_exec(cs.as_slice(), completed.as_slice()) {
        MangaStatus::Completed
    } else if text::contains_exec(cs.as_slice(), hiatus.as_slice()) || text::contains_exec(
        cs.as_slice(),
        stopped.as_slice(),
    ) {
        MangaStatus::Hiatus
    } else {
        MangaStatus::Unknown
    }
}

/// `&amp;`, `&quot;`, `&#039;`, `&lt;`, `&gt;` replaced in turn.
pub open spec fn field_entities(s: Seq<char>) -> Seq<char> {
    text::replace(
        text::replace(
            text::replace(
                text::replace(text::replace(s, "&amp;"@, "&"@), "&quot;"@, "\""@),
                "&#039;"@,
                "'"@,
            ),
            "&lt;"@,
            "<"@,
        ),
        "&gt;"@,
        ">"@,
    )
}

fn replace_lit(s: Vec<char>, from: &str, to: &str) -> (r: Vec<char>)
    requires
        from@.len() > 0,
    ensures
        r@ == text::replace(s@, from@, to@),
{
    let f = text::to_chars(from);
    let t = text::to_chars(to);
    text::replace_chars(s.as_slice(), f.as_slice(), t.as_slice())
}

/// Decode the HTML entities (`&amp;`, `&quot;`, `&#039;`, `&lt;`, `&gt;`)
/// the site emits inside field values.
pub fn decode_entities(s: &str) -> (r: String)
    ensures
        r@ == field_entities(s@),
{
    proof {
        reveal_strlit("&amp;");
        reveal_strlit("&quot;");
        reveal_strlit("&#039;");
        reveal_strlit("&lt;");
        reveal_strlit("&gt;");
    }
    let cs = text::to_chars(s);
    let a = replace_lit(cs, "&amp;", "&");
    let b = replace_lit(a, "&quot;", "\"");
    let c = replace_lit(b, "&#039;", "'");
    let d = replace_lit(c, "&lt;", "<");
    let e = replace_lit(d, "&gt;", ">");
    text::string_of(e.as_slice(), 0, e.len())
}

/// `s` without its trailing `/` characters.
pub open spec fn trim_trailing_slashes(s: Seq<char>) -> Seq<char>
    decreases s.len(),
{
    if s.len() > 0 && s.last() == '/' {
        trim_trailing_slashes(s.drop_last())
    } else {
        s
    }
}

/// A possibly relative URL resolved against `base`.
pub open spec fn absolute_url(url: Seq<char>, base: Seq<char>) -> Seq<char> {
    if text::is_http_url(url) {
        url
    } else if url.len() > 0 && url[0] == '/' {
        trim_trailing_slashes(base) + seq!['/'] + url.drop_first()
    } else {
        trim_trailing_slashes(base) + seq!['/'] + url
    }
}

/// Resolve a possibly-relative URL against the base URL.
pub fn absolutize(url: &str, base: &str) -> (r: String)
    ensures
        r@ == absolute_url(url@, base@),
{
    let u = text::to_chars(url);
    if text::is_http_url_exec(u.as_slice()) {
        return String::from_str(url);
    }
    let b = text::to_chars(base);
    let mut e = b.len();
    assert(b@.subrange(0, b@.len() as int) =~= b@);
    while e > 0 && b[e - 1] == '/'
        invariant
            e <= b@.len(),
            trim_trailing_slashes(b@) == trim_trailing_slashes(b@.subrange(0, e as int)),
        decreases e,
    {
        assert(b@.subrange(0, e as int).drop_last() =~= b@.subrange(0, e - 1));
        e -= 1;
    }
    assert(b@.subrange(0, b@.len() as int) =~= b@);
    let mut r: Vec<char> = text::sub_chars(b.as_slice(), 0, e);
    r.push('/');
    if u.len() > 0 && u[0] == '/' {
        text::extend_chars(&mut r, u.as_slice(), 1, u.len());
        assert(u@.subrange(1, u@.len() as int) =~= u@.drop_first());
    } else {
        text::extend_chars(&mut r, u.as_slice(), 0, u.len());
        assert(u@.subrange(0, u@.len() as int) =~= u@);
    }
    text::string_of(r.as_slice(), 0, r.len())
}

// ---------- Chapters ----------

/// What an anchor of the chapter grid carries: its `href`, its text, and the
/// `title` attribute of its first `span[title]`.
pub struct ChapterAnchor {
    pub href: Option<String>,
    pub text: Option<String>,
    pub span_title: Option<String>,
}

/// The chapter index an `href` ends with, 0 when it does not parse.
pub open spec fn chapter_index(href: Seq<char>) -> i32 {
    match num::parse_i32(text::last_path_segment(href)) {
        Some(n) => n,
        None => 0,
    }
}

/// The chapter an anchor stands for; `None` for the start-reading button.
pub open spec fn chapter_of(a: ChapterAnchor, key: Seq<char>, base: Seq<char>) -> Option<
    model::ChapterView,
> {
    let index = chapter_index(text::or_empty(a.href));
    let text = text::or_empty(a.text);
    if text::spec_contains(text, "開始閱讀"@) {
        None
    } else {
        let title = match a.span_title {
            Some(t) => match text::nonblank(t@) {
                Some(x) => Some(x),
                None => text::nonblank(text),
            },
            None => text::nonblank(text),
        };
        Some(
            model::ChapterView {
                key: num::dec_int(index as int),
                title,
                chapter_number: Some(index.wrapping_add(1)),
                url: Some(base + "/books/"@ + key + "/"@ + num::dec_int(index as int)),
                language: Some("zh"@),
            },
        )
    }
}

/// The chapters of the grid's anchors, in grid order.
pub open spec fn chapters_of(anchors: Seq<ChapterAnchor>, key: Seq<char>, base: Seq<char>) -> Seq<
    model::ChapterView,
>
    decreases anchors.len(),
{
    if anchors.len() == 0 {
        Seq::empty()
    } else {
        let r = chapters_of(anchors.drop_last(), key, base);
        match chapter_of(anchors.last(), key, base) {
            Some(c) => r.push(c),
            None => r,
        }
    }
}

fn chapter_index_exec(href: &Option<String>) -> (r: i32)
    ensures
        r == chapter_index(text::or_empty(*href)),
{
    let h = text::chars_or_empty(href);
    let slash = ['/'];
    assert(slash@ == seq!['/']);
    proof {
        text::lemma_rfind_below(h@, slash@, h@.len() - 1);
    }
    let n = h.len();
    let seg = match text::rfind_exec(h.as_slice(), &slash) {
        Some(p) => {
            assert(p < n);
            text::sub_chars(h.as_slice(), p + 1, n)
        },
        None => text::sub_chars(h.as_slice(), 0, n),
    };
    assert(h@.subrange(0, n as int) =~= h@);
    match num::parse_i32_exec(seg.as_slice()) {
        Some(v) => v,
        None => 0,
    }
}

fn chapter_of_exec(a: &ChapterAnchor, key: &str, base: &str) -> (r: Option<Chapter>)
    ensures
        match r {
            Some(c) => chapter_of(*a, key@, base@) == Some(c@),
            None => chapter_of(*a, key@, base@) is None,
        },
{
    let index = chapter_index_exec(&a.href);
    let text = text::chars_or_empty(&a.text);
    let start = text::to_chars("開始閱讀");
    if text::contains_exec(text.as_slice(), start.as_slice()) {
        return None;
    }
    let title = match &a.span_title {
        Some(t) => {
            let tc = text::to_chars(t.as_str());
            match text::nonblank_string(tc.as_slice()) {
                Some(x) => Some(x),
                None => text::nonblank_string(text.as_slice()),
            }
        },
        None => text::nonblank_string(text.as_slice()),
    };
    let idx = num::i32_to_string(index);
    let mut url = String::from_str(base);
    url.append("/books/");
    url.append(key);
    url.append("/");
    url.append(idx.as_str());
    Some(
        Chapter {
            key: idx.clone(),
            title,
            chapter_number: Some(index.wrapping_add(1)),
            url: Some(url),
            language: Some(String::from_str("zh")),
        },
    )
}

/// Build the chapter list from the anchors of the chapter grid (in grid
/// order), dropping the start-reading button; titles come from the anchor's
/// `span[title]`, falling back to its text.
pub fn parse_chapters(anchors: &Vec<ChapterAnchor>, key: &str, base: &str) -> (r: Vec<Chapter>)
    ensures
        model::chapter_views(r@) == chapters_of(anchors@, key@, base@),
{
    let mut r: Vec<Chapter> = Vec::new();
    let mut i: usize = 0;
    assert(anchors@.subrange(0, 0) =~= Seq::<ChapterAnchor>::empty());
    assert(model::chapter_views(r@) =~= Seq::<model::ChapterView>::empty());
    while i < anchors.len()
        invariant
            i <= anchors@.len(),
            model::chapter_views(r@) == chapters_of(anchors@.subrange(0, i as int), key@, base@),
        decreases anchors.len() - i,
    {
        let ghost pre = anchors@.subrange(0, i + 1);
        assert(pre.drop_last() =~= anchors@.subrange(0, i as int));
        assert(pre.last() == anchors@[i as int]);
        if let Some(c) = chapter_of_exec(&anchors[i], key, base) {
            let ghost before = model::chapter_views(r@);
            r.push(c);
            assert(model::chapter_views(r@) =~= before.push(c@));
        }
        i += 1;
    }
    assert(anchors@.subrange(0, anchors@.len() as int) =~= anchors@);
    r
}

// ---------- Detail page ----------

/// What the detail page's elements carry.
pub struct DetailPage {
    /// Text of the first `.site-book-info h1, h1`.
    pub title: Option<String>,
    /// `src` of the first `img.site-detail-cover[src]`.
    pub cover: Option<String>,
    /// Texts of the children of `dl.site-book-data`, in order (`dt`, `dd`,
    /// `dt`, `dd`, ...); `None` when there is no such list.
    pub data_rows: Option<Vec<Option<String>>>,
    /// Text of the first `div.site-book-synopsis p`.
    pub synopsis: Option<String>,
    /// Body of the first `script[type="application/ld+json"]`.
    pub json_ld: Option<String>,
    /// Anchors of `div.site-chapters` linking to this manga's chapters.
    pub chapter_anchors: Vec<ChapterAnchor>,
}

/// Author and status from the `LABEL`/`VALUE` rows from index `i` on; later
/// rows override earlier ones, rows with an empty value are skipped.
pub open spec fn rows_author_status(
    rows: Seq<Option<String>>,
    i: int,
    author: Option<Seq<char>>,
    status: MangaStatus,
) -> (Option<Seq<char>>, MangaStatus)
    decreases rows.len() - i,
{
    if i < 0 || i + 1 >= rows.len() {
        (author, status)
    } else {
        let label = text::trim_start(text::or_empty(rows[i]));
        let value = text::trim(text::or_empty(rows[i + 1]));
        if value.len() == 0 {
            rows_author_status(rows, i + 2, author, status)
        } else if text::spec_starts_with(label, "作者"@) {
            rows_author_status(rows, i + 2, Some(field_entities(value)), status)
        } else if text::spec_starts_with(label, "狀態"@) {
            rows_author_status(rows, i + 2, author, status_of(value))
        } else {
            rows_author_status(rows, i + 2, author, status)
        }
    }
}

/// The JSON-LD script's `description`, after entity decoding; `None` when
/// missing or empty.
pub open spec fn ld_description(json_ld: Option<String>) -> Option<Seq<char>> {
    match json_ld {
        None => None,
        Some(raw) => match top_level_string(decode_fixpoint(raw@), "description"@) {
            Some(d) => if d.len() == 0 {
                None
            } else {
                Some(d)
            },
            None => None,
        },
    }
}

/// The manga a detail page describes.
pub open spec fn manga_detail(page: DetailPage, key: Seq<char>, base: Seq<char>) -> model::MangaView {
    let (author, status) = match page.data_rows {
        Some(rows) => rows_author_status(rows@, 0, None, MangaStatus::Unknown),
        None => (None, MangaStatus::Unknown),
    };
    let chapters = chapters_of(page.chapter_anchors@, key, base).reverse();
    model::MangaView {
        key,
        title: text::trim(text::or_empty(page.title)),
        cover: match page.cover {
            Some(c) => Some(absolute_url(c@, base)),
            None => None,
        },
        authors: match author {
            Some(a) => if a.len() == 0 {
                None
            } else {
                Some(seq![a])
            },
            None => None,
        },
        description: match page.synopsis {
            Some(t) => match text::nonblank(t@) {
                Some(d) => Some(d),
                None => ld_description(page.json_ld),
            },
            None => ld_description(page.json_ld),
        },
        url: Some(base + "/books/"@ + key),
        tags: None,
        status,
        content_rating: ContentRating::NSFW,
        viewer: Viewer::Webtoon,
        chapters: if chapters.len() == 0 {
            None
        } else {
            Some(chapters)
        },
    }
}

/// Read the JSON-LD block's `description` field.
pub fn json_ld_description(json_ld: &Option<String>) -> (r: Option<String>)
    ensures
        text::opt_view(r) == ld_description(*json_ld),
{
    match json_ld {
        None => None,
        Some(raw) => {
            let json = decode_script_entities(raw.as_str());
            match json_top_level_string(json.as_str(), "description") {
                Some(d) => {
                    if d.as_str().is_empty() {
                        None
                    } else {
                        Some(d)
                    }
                },
                None => None,
            }
        },
    }
}

fn rows_author_status_exec(rows: &Vec<Option<String>>) -> (r: (Option<String>, MangaStatus))
    ensures
        (text::opt_view(r.0), r.1) == rows_author_status(rows@, 0, None, MangaStatus::Unknown),
{
    let mut author: Option<String> = None;
    let mut status = MangaStatus::Unknown;
    let mut i: usize = 0;
    let author_label = text::to_chars("作者");
    let status_label = text::to_chars("狀態");
    while i < rows.len() && rows.len() - i > 1
        invariant
            i <= rows@.len(),
            author_label@ == "作者"@,
            status_label@ == "狀態"@,
            rows_author_status(rows@, i as int, text::opt_view(author), status)
                == rows_author_status(rows@, 0, None, MangaStatus::Unknown),
        decreases rows.len() - i,
    {
        let label_cs = text::chars_or_empty(&rows[i]);
        let la = text::trim_start_index(label_cs.as_slice());
        let label = text::sub_chars(label_cs.as_slice(), la, label_cs.len());
        let value_cs = text::chars_or_empty(&rows[i + 1]);
        let value = text::trim_chars(value_cs.as_slice());
        if value.len() == 0 {
        } else if text::starts_with_exec(label.as_slice(), author_label.as_slice()) {
            let v = text::string_of(value.as_slice(), 0, value.len());
            assert(value@.subrange(0, value@.len() as int) =~= value@);
            author = Some(decode_entities(v.as_str()));
        } else if text::starts_with_exec(label.as_slice(), status_label.as_slice()) {
            let v = text::string_of(value.as_slice(), 0, value.len());
            assert(value@.subrange(0, value@.len() as int) =~= value@);
            status = manga_status_from_text(v.as_str());
        }
        i += 2;
    }
    (author, status)
}

/// Assemble the manga a detail page describes. Chapters come newest first
/// (the grid lists them oldest first).
pub fn parse_manga_detail(page: &DetailPage, key: &str, base: &str) -> (r: Manga)
    ensures
        r@ == manga_detail(*page, key@, base@),
        page.synopsis is Some && text::trim(page.synopsis->0@).len() > 0 ==> r@.description
            == Some(text::trim(page.synopsis->0@)),
        page.synopsis is None || text::trim(page.synopsis->0@).len() == 0 ==> r@.description
            == ld_description(page.json_ld),
{
    let title = match &page.title {
        Some(t) => text::trimmed_string(t.as_str()),
        None => String::new(),
    };
    let cover = match &page.cover {
        Some(c) => Some(absolutize(c.as_str(), base)),
        None => None,
    };
    let (author, status) = match &page.data_rows {
        Some(rows) => rows_author_status_exec(rows),
        None => (None, MangaStatus::Unknown),
    };
    let description = match &page.synopsis {
        Some(t) => {
            let tc = text::to_chars(t.as_str());
            match text::nonblank_string(tc.as_slice()) {
                Some(d) => Some(d),
                None => json_ld_description(&page.json_ld),
            }
        },
        None => json_ld_description(&page.json_ld),
    };
    let mut in_order = parse_chapters(&page.chapter_anchors, key, base);
    let ghost fwd = model::chapter_views(in_order@);
    let mut chapters: Vec<Chapter> = Vec::new();
    assert(model::chapter_views(chapters@) =~= fwd.subrange(fwd.len() as int, fwd.len() as int).reverse());
    while in_order.len() > 0
        invariant
            in_order@.len() <= fwd.len(),
            model::chapter_views(in_order@) == fwd.subrange(0, in_order@.len() as int),
            model::chapter_views(chapters@) == fwd.subrange(
                in_order@.len() as int,
                fwd.len() as int,
            ).reverse(),
        decreases in_order.len(),
    {
        let ghost k = in_order@.len();
        let ghost old_in = in_order@;
        let c = in_order.pop().unwrap();
        assert(old_in[k - 1] == c);
        assert(model::chapter_views(old_in)[k - 1] == c@);
        let ghost before = model::chapter_views(chapters@);
        chapters.push(c);
        assert(model::chapter_views(chapters@) =~= before.push(c@));
        assert(fwd[k - 1] == c@);
        assert(fwd.subrange(k - 1, fwd.len() as int).reverse() =~= fwd.subrange(
            k as int,
            fwd.len() as int,
        ).reverse().push(fwd[k - 1]));
        assert(model::chapter_views(in_order@) =~= fwd.subrange(0, k - 1));
    }
    assert(fwd.subrange(0, fwd.len() as int) =~= fwd);
    let authors = match author {
        Some(a) => {
            if a.as_str().is_empty() {
                None
            } else {
                let mut v: Vec<String> = Vec::new();
                v.push(a);
                Some(v)
            }
        },
        None => None,
    };
    let mut url = String::from_str(base);
    url.append("/books/");
    url.append(key);
    let has_chapters = chapters.len() > 0;
    let r = Manga {
        key: String::from_str(key),
        title,
        cover,
        authors,
        description,
        url: Some(url),
        tags: None,
        status,
        content_rating: ContentRating::NSFW,
        viewer: Viewer::Webtoon,
        chapters: if has_chapters {
            Some(chapters)
        } else {
            None
        },
    };
    proof {
        if r.authors is Some {
            let v = r.authors->0;
            assert(text::views(v@) =~= seq![v@[0]@]);
        }
    }
    r
}

/// The description is the synopsis the page shows whenever it has text;
/// the JSON-LD description only stands in for a missing or blank synopsis.
pub proof fn law_synopsis_before_json_ld(page: DetailPage, key: Seq<char>, base: Seq<char>)
    ensures
        page.synopsis is Some && text::trim(page.synopsis->0@).len() > 0 ==> manga_detail(
            page,
            key,
            base,
        ).description == Some(text::trim(page.synopsis->0@)),
        page.synopsis is None || text::trim(page.synopsis->0@).len() == 0 ==> manga_detail(
            page,
            key,
            base,
        ).description == ld_description(page.json_ld),
{
}

/// The detail record: the key it was asked for, the trimmed heading, the
/// manga's own page URL, adult content read as a webtoon, and the grid's
/// chapters newest first (the grid lists them oldest first).
pub proof fn law_detail_fields(page: DetailPage, key: Seq<char>, base: Seq<char>)
    ensures
        manga_detail(page, key, base).key == key,
        manga_detail(page, key, base).title == text::trim(text::or_empty(page.title)),
        manga_detail(page, key, base).url == Some(base + "/books/"@ + key),
        manga_detail(page, key, base).content_rating == ContentRating::NSFW,
        manga_detail(page, key, base).viewer == Viewer::Webtoon,
        chapters_of(page.chapter_anchors@, key, base).len() == 0 ==> manga_detail(
            page,
            key,
            base,
        ).chapters is None,
        chapters_of(page.chapter_anchors@, key, base).len() > 0 ==> (manga_detail(
            page,
            key,
            base,
        ).chapters matches Some(cs) && cs.len() == chapters_of(page.chapter_anchors@, key, base).len()
            && forall|i: int|
            0 <= i < cs.len() ==> #[trigger] cs[i] == chapters_of(page.chapter_anchors@, key, base)[cs.len() - 1 - i]),
{
}

} // verus!
