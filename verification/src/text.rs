//! Character-level string primitives shared by both sources: substring
//! search, prefix tests, trimming, replacement, and conversions between
//! `&str`, `String` and character vectors.
//!
//! Every string is modelled by its view, the sequence of its `char`s.
use vstd::prelude::*;

verus! {

// ---------- Specification ----------

/// `p` occurs in `s` starting at character index `i`.
pub open spec fn matches_at<A>(s: Seq<A>, p: Seq<A>, i: int) -> bool {
    0 <= i && i + p.len() <= s.len() && s.subrange(i, i + p.len()) == p
}

/// The first index `>= i` at which `p` occurs in `s`.
pub open spec fn find_from<A>(s: Seq<A>, p: Seq<A>, i: int) -> Option<int>
    decreases s.len() - i,
{
    if i < 0 || i + p.len() > s.len() {
        None
    } else if matches_at(s, p, i) {
        Some(i)
    } else if i >= s.len() {
        None
    } else {
        find_from(s, p, i + 1)
    }
}

/// The first occurrence of `p` in `s` (as `str::find`).
pub open spec fn spec_find<A>(s: Seq<A>, p: Seq<A>) -> Option<int> {
    find_from(s, p, 0)
}

/// The last index `<= i` at which `p` occurs in `s`.
pub open spec fn rfind_below<A>(s: Seq<A>, p: Seq<A>, i: int) -> Option<int>
    decreases i + 1,
{
    if i < 0 {
        None
    } else if matches_at(s, p, i) {
        Some(i)
    } else {
        rfind_below(s, p, i - 1)
    }
}

/// The last occurrence of `p` in `s` (as `str::rfind`).
pub open spec fn spec_rfind<A>(s: Seq<A>, p: Seq<A>) -> Option<int> {
    rfind_below(s, p, s.len() - p.len())
}

pub open spec fn spec_contains(s: Seq<char>, p: Seq<char>) -> bool {
    spec_find(s, p) is Some
}

pub open spec fn spec_starts_with(s: Seq<char>, p: Seq<char>) -> bool {
    matches_at(s, p, 0)
}

pub open spec fn spec_ends_with(s: Seq<char>, p: Seq<char>) -> bool {
    matches_at(s, p, s.len() - p.len())
}

/// `s` without the suffix `p` when it ends with it, else `s`
/// (`s.strip_suffix(p).unwrap_or(s)`).
pub open spec fn strip_suffix(s: Seq<char>, p: Seq<char>) -> Seq<char> {
    if spec_ends_with(s, p) {
        s.subrange(0, s.len() - p.len())
    } else {
        s
    }
}

/// `s` without the prefix `p` when it starts with it, else `s`
/// (`s.strip_prefix(p).unwrap_or(s)`).
pub open spec fn strip_prefix(s: Seq<char>, p: Seq<char>) -> Seq<char> {
    if spec_starts_with(s, p) {
        s.subrange(p.len() as int, s.len() as int)
    } else {
        s
    }
}

/// The last `/`-separated segment (`rsplit('/').next()`).
pub open spec fn last_path_segment(s: Seq<char>) -> Seq<char> {
    match spec_rfind(s, seq!['/']) {
        Some(p) => s.subrange(p + 1, s.len() as int),
        None => s,
    }
}

/// Starts with `http://` or `https://`.
pub open spec fn is_http_url(s: Seq<char>) -> bool {
    spec_starts_with(s, seq!['h', 't', 't', 'p', ':', '/', '/'])
        || spec_starts_with(s, seq!['h', 't', 't', 'p', 's', ':', '/', '/'])
}

/// The Unicode `White_Space` property (`char::is_whitespace`).
pub open spec fn is_ws(c: char) -> bool {
    ||| ('\u{9}' <= c && c <= '\u{d}')
    ||| c == ' '
    ||| c == '\u{85}'
    ||| c == '\u{a0}'
    ||| c == '\u{1680}'
    ||| ('\u{2000}' <= c && c <= '\u{200a}')
    ||| c == '\u{2028}'
    ||| c == '\u{2029}'
    ||| c == '\u{202f}'
    ||| c == '\u{205f}'
    ||| c == '\u{3000}'
}

pub open spec fn trim_start(s: Seq<char>) -> Seq<char>
    decreases s.len(),
{
    if s.len() > 0 && is_ws(s[0]) {
        trim_start(s.drop_first())
    } else {
        s
    }
}

pub open spec fn trim_end(s: Seq<char>) -> Seq<char>
    decreases s.len(),
{
    if s.len() > 0 && is_ws(s.last()) {
        trim_end(s.drop_last())
    } else {
        s
    }
}

/// `str::trim`: leading and trailing whitespace removed.
pub open spec fn trim(s: Seq<char>) -> Seq<char> {
    trim_end(trim_start(s))
}

/// `str::replace(from, to)` for a non-empty `from`: every non-overlapping
/// occurrence, scanning left to right, is replaced.
pub open spec fn replace(s: Seq<char>, from: Seq<char>, to: Seq<char>) -> Seq<char>
    decreases s.len(),
{
    if from.len() == 0 {
        s
    } else {
        match spec_find(s, from) {
            None => s,
            Some(i) => {
                if i < 0 || i + from.len() > s.len() {
                    s
                } else {
                    s.subrange(0, i) + to + replace(s.subrange(i + from.len(), s.len() as int), from, to)
                }
            },
        }
    }
}

pub open spec fn is_ascii_digit(c: char) -> bool {
    '0' <= c && c <= '9'
}

/// The longest prefix of `s` whose characters all satisfy `f`.
pub open spec fn take_while(s: Seq<char>, f: spec_fn(char) -> bool) -> Seq<char>
    decreases s.len(),
{
    if s.len() > 0 && f(s[0]) {
        seq![s[0]] + take_while(s.drop_first(), f)
    } else {
        Seq::empty()
    }
}

pub open spec fn views(v: Seq<String>) -> Seq<Seq<char>> {
    v.map_values(|s: String| s@)
}

/// The view of an optional string, the empty text for `None`
/// (`unwrap_or_default`).
pub open spec fn or_empty(o: Option<String>) -> Seq<char> {
    match o {
        Some(s) => s@,
        None => Seq::empty(),
    }
}

pub open spec fn opt_view(o: Option<String>) -> Option<Seq<char>> {
    match o {
        Some(s) => Some(s@),
        None => None,
    }
}

// ---------- Lemmas ----------

pub proof fn lemma_find_from<A>(s: Seq<A>, p: Seq<A>, i: int)
    requires
        0 <= i,
    ensures
        match find_from(s, p, i) {
            Some(k) => i <= k && matches_at(s, p, k) && forall|j: int|
                i <= j < k ==> !matches_at(s, p, j),
            None => forall|j: int| i <= j ==> !matches_at(s, p, j),
        },
    decreases s.len() - i,
{
    if i + p.len() > s.len() {
    } else if matches_at(s, p, i) {
    } else if i >= s.len() {
        assert forall|j: int| i <= j implies !matches_at(s, p, j) by {
            if j == i {
            } else {
                assert(j + p.len() > s.len());
            }
        }
    } else {
        lemma_find_from(s, p, i + 1);
    }
}

pub proof fn lemma_rfind_below<A>(s: Seq<A>, p: Seq<A>, i: int)
    ensures
        match rfind_below(s, p, i) {
            Some(k) => 0 <= k <= i && matches_at(s, p, k) && forall|j: int|
                k < j <= i ==> !matches_at(s, p, j),
            None => forall|j: int| 0 <= j <= i ==> !matches_at(s, p, j),
        },
    decreases i + 1,
{
    if i < 0 {
    } else if matches_at(s, p, i) {
    } else {
        lemma_rfind_below(s, p, i - 1);
    }
}

/// A first occurrence is characterised by matching with no earlier match.
pub proof fn lemma_find_unique<A>(s: Seq<A>, p: Seq<A>, k: int)
    requires
        matches_at(s, p, k),
        forall|j: int| 0 <= j < k ==> !matches_at(s, p, j),
    ensures
        spec_find(s, p) == Some(k),
{
    lemma_find_from(s, p, 0);
    match spec_find(s, p) {
        Some(m) => {
            if m < k {
            } else if m > k {
            }
        },
        None => {},
    }
}

pub proof fn lemma_find_none<A>(s: Seq<A>, p: Seq<A>)
    requires
        forall|j: int| 0 <= j ==> !matches_at(s, p, j),
    ensures
        spec_find(s, p) is None,
{
    lemma_find_from(s, p, 0);
    if let Some(m) = spec_find(s, p) {
        assert(matches_at(s, p, m));
    }
}

/// A first occurrence that ends inside `p` stays the first occurrence when
/// `q` is appended.
pub proof fn lemma_find_extend(p: Seq<char>, q: Seq<char>, m: Seq<char>, k: int)
    requires
        spec_find(p, m) == Some(k),
    ensures
        spec_find(p + q, m) == Some(k),
{
    lemma_find_from(p, m, 0);
    let s = p + q;
    assert(s.subrange(k, k + m.len()) =~= p.subrange(k, k + m.len()));
    assert forall|j: int| 0 <= j < k implies !matches_at(s, m, j) by {
        assert(s.subrange(j, j + m.len()) =~= p.subrange(j, j + m.len()));
        assert(!matches_at(p, m, j));
    }
    lemma_find_unique(s, m, k);
}

/// A text that neither starts nor ends with whitespace is its own trim.
pub proof fn lemma_trim_noop(s: Seq<char>)
    requires
        s.len() > 0,
        !is_ws(s[0]),
        !is_ws(s.last()),
    ensures
        trim(s) == s,
{
    assert(trim_start(s) == s);
    assert(trim_end(s) == s);
}

/// `take_while` runs through a prefix whose characters all qualify.
pub proof fn lemma_take_while_prefix(a: Seq<char>, b: Seq<char>, f: spec_fn(char) -> bool)
    requires
        forall|i: int| 0 <= i < a.len() ==> f(#[trigger] a[i]),
    ensures
        take_while(a + b, f) == a + take_while(b, f),
    decreases a.len(),
{
    if a.len() > 0 {
        lemma_take_while_prefix(a.drop_first(), b, f);
        assert((a + b).drop_first() =~= a.drop_first() + b);
        assert((a + b)[0] == a[0]);
        assert(seq![a[0]] + (a.drop_first() + take_while(b, f)) =~= a + take_while(b, f));
    } else {
        assert(a + b =~= b);
        assert(a + take_while(b, f) =~= take_while(b, f));
    }
}

// ---------- Executable ----------

/// Appends one character to a string.
///
/// Trusted: calls `String::push`, which std documents as appending the given
/// `char` to the end of the string.
#[verifier::external_body]
pub(crate) fn push_char(s: &mut String, c: char)
    ensures
        final(s)@ == old(s)@.push(c),
{
    s.push(c);
}

/// The characters of `s`, in order.
pub fn to_chars(s: &str) -> (v: Vec<char>)
    ensures
        v@ == s@,
{
    let mut v: Vec<char> = Vec::new();
    for c in it: s.chars()
        invariant
            v@ == it.seq().take(it.index() as int),
    {
        v.push(c);
    }
    v
}

/// The string made of the characters `cs[from..to]`.
pub fn string_of(cs: &[char], from: usize, to: usize) -> (r: String)
    requires
        from <= to <= cs@.len(),
    ensures
        r@ == cs@.subrange(from as int, to as int),
{
    let mut r = String::new();
    let mut i = from;
    while i < to
        invariant
            from <= i <= to <= cs@.len(),
            r@ == cs@.subrange(from as int, i as int),
        decreases to - i,
    {
        push_char(&mut r, cs[i]);
        assert(cs@.subrange(from as int, i + 1) == cs@.subrange(from as int, i as int).push(cs@[i as int]));
        i += 1;
    }
    r
}

/// The characters `cs[from..to]`.
pub fn sub_chars(cs: &[char], from: usize, to: usize) -> (r: Vec<char>)
    requires
        from <= to <= cs@.len(),
    ensures
        r@ == cs@.subrange(from as int, to as int),
{
    let mut r: Vec<char> = Vec::new();
    let mut i = from;
    while i < to
        invariant
            from <= i <= to <= cs@.len(),
            r@ == cs@.subrange(from as int, i as int),
        decreases to - i,
    {
        r.push(cs[i]);
        assert(cs@.subrange(from as int, i + 1) == cs@.subrange(from as int, i as int).push(
            cs@[i as int],
        ));
        i += 1;
    }
    r
}

/// Appends all of `src` to `dst`.
pub fn push_chars(dst: &mut String, src: &[char])
    ensures
        final(dst)@ == old(dst)@ + src@,
{
    let mut i: usize = 0;
    while i < src.len()
        invariant
            i <= src@.len(),
            dst@ == old(dst)@ + src@.subrange(0, i as int),
        decreases src.len() - i,
    {
        push_char(dst, src[i]);
        assert(src@.subrange(0, i + 1) == src@.subrange(0, i as int).push(src@[i as int]));
        i += 1;
    }
    assert(src@.subrange(0, src@.len() as int) == src@);
}

/// Does `p` occur in `s` at index `i`?
pub fn matches_at_exec(s: &[char], p: &[char], i: usize) -> (r: bool)
    ensures
        r == matches_at(s@, p@, i as int),
{
    let n = s.len();
    if i > n || p.len() > n - i {
        return false;
    }
    let mut k: usize = 0;
    while k < p.len()
        invariant
            n == s@.len(),
            i + p@.len() <= s@.len(),
            i <= s@.len(),
            k <= p@.len(),
            forall|j: int| 0 <= j < k ==> s@[i + j] == p@[j],
        decreases p.len() - k,
    {
        assert(i + k < s@.len());
        if s[i + k] != p[k] {
            assert(s@.subrange(i as int, i + p@.len())[k as int] != p@[k as int]);
            return false;
        }
        k += 1;
    }
    assert(s@.subrange(i as int, i + p@.len()) =~= p@);
    true
}

/// First occurrence of `p` in `s` at or after `start`.
pub fn find_from_exec(s: &[char], p: &[char], start: usize) -> (r: Option<usize>)
    ensures
        match r {
            Some(k) => find_from(s@, p@, start as int) == Some(k as int),
            None => find_from(s@, p@, start as int) is None,
        },
{
    let mut i = start;
    while i <= s.len() && p.len() <= s.len() - i
        invariant
            start <= i,
            find_from(s@, p@, start as int) == find_from(s@, p@, i as int),
        decreases s.len() - i,
    {
        if matches_at_exec(s, p, i) {
            return Some(i);
        }
        if i == s.len() {
            return None;
        }
        i += 1;
    }
    None
}

/// First occurrence of `p` in `s` (as `str::find`).
pub fn find_exec(s: &[char], p: &[char]) -> (r: Option<usize>)
    ensures
        match r {
            Some(k) => spec_find(s@, p@) == Some(k as int),
            None => spec_find(s@, p@) is None,
        },
{
    find_from_exec(s, p, 0)
}

/// Last occurrence of `p` in `s` (as `str::rfind`).
pub fn rfind_exec(s: &[char], p: &[char]) -> (r: Option<usize>)
    ensures
        match r {
            Some(k) => spec_rfind(s@, p@) == Some(k as int),
            None => spec_rfind(s@, p@) is None,
        },
{
    if p.len() > s.len() {
        return None;
    }
    let mut i: usize = s.len() - p.len();
    loop
        invariant
            i <= s@.len() - p@.len(),
            spec_rfind(s@, p@) == rfind_below(s@, p@, i as int),
        decreases i,
    {
        if matches_at_exec(s, p, i) {
            return Some(i);
        }
        if i == 0 {
            assert(rfind_below(s@, p@, -1) is None);
            return None;
        }
        i -= 1;
    }
}

/// Does `p` occur in the bytes `s` at index `i`?
pub fn matches_at_bytes(s: &[u8], p: &[u8], i: usize) -> (r: bool)
    ensures
        r == matches_at(s@, p@, i as int),
{
    let n = s.len();
    if i > n || p.len() > n - i {
        return false;
    }
    let mut k: usize = 0;
    while k < p.len()
        invariant
            n == s@.len(),
            i + p@.len() <= s@.len(),
            k <= p@.len(),
            forall|j: int| 0 <= j < k ==> s@[i + j] == p@[j],
        decreases p.len() - k,
    {
        if s[i + k] != p[k] {
            assert(s@.subrange(i as int, i + p@.len())[k as int] != p@[k as int]);
            return false;
        }
        k += 1;
    }
    assert(s@.subrange(i as int, i + p@.len()) =~= p@);
    true
}

/// First occurrence of `p` in the bytes `s` at or after `start`.
pub fn find_from_bytes(s: &[u8], p: &[u8], start: usize) -> (r: Option<usize>)
    ensures
        match r {
            Some(k) => find_from(s@, p@, start as int) == Some(k as int),
            None => find_from(s@, p@, start as int) is None,
        },
{
    let mut i = start;
    while i <= s.len() && p.len() <= s.len() - i
        invariant
            start <= i,
            find_from(s@, p@, start as int) == find_from(s@, p@, i as int),
        decreases s.len() - i,
    {
        if matches_at_bytes(s, p, i) {
            return Some(i);
        }
        if i == s.len() {
            return None;
        }
        i += 1;
    }
    None
}

pub fn contains_exec(s: &[char], p: &[char]) -> (r: bool)
    ensures
        r == spec_contains(s@, p@),
{
    find_exec(s, p).is_some()
}

pub fn starts_with_exec(s: &[char], p: &[char]) -> (r: bool)
    ensures
        r == spec_starts_with(s@, p@),
{
    matches_at_exec(s, p, 0)
}

pub fn ends_with_exec(s: &[char], p: &[char]) -> (r: bool)
    ensures
        r == spec_ends_with(s@, p@),
{
    if p.len() > s.len() {
        false
    } else {
        matches_at_exec(s, p, s.len() - p.len())
    }
}

/// `s.rsplit('/').next()`, as characters.
pub fn last_segment_chars(s: &[char]) -> (r: Vec<char>)
    ensures
        r@ == last_path_segment(s@),
        r@.len() <= s@.len(),
{
    let slash = ['/'];
    assert(slash@ == seq!['/']);
    let n = s.len();
    proof {
        lemma_rfind_below(s@, slash@, n - 1);
    }
    match rfind_exec(s, &slash) {
        Some(p) => {
            assert(p < n);
            sub_chars(s, p + 1, n)
        },
        None => {
            let r = sub_chars(s, 0, n);
            assert(s@.subrange(0, n as int) =~= s@);
            r
        },
    }
}

/// `s.strip_suffix(p).unwrap_or(s)`, as characters.
pub fn strip_suffix_chars(s: &[char], p: &[char]) -> (r: Vec<char>)
    ensures
        r@ == strip_suffix(s@, p@),
{
    if ends_with_exec(s, p) {
        sub_chars(s, 0, s.len() - p.len())
    } else {
        let r = sub_chars(s, 0, s.len());
        assert(s@.subrange(0, s@.len() as int) =~= s@);
        r
    }
}

/// `s.strip_prefix(p).unwrap_or(s)`, as characters.
pub fn strip_prefix_chars(s: &[char], p: &[char]) -> (r: Vec<char>)
    ensures
        r@ == strip_prefix(s@, p@),
{
    if starts_with_exec(s, p) {
        sub_chars(s, p.len(), s.len())
    } else {
        let r = sub_chars(s, 0, s.len());
        assert(s@.subrange(0, s@.len() as int) =~= s@);
        r
    }
}

pub fn is_http_url_exec(s: &[char]) -> (r: bool)
    ensures
        r == is_http_url(s@),
{
    let http = ['h', 't', 't', 'p', ':', '/', '/'];
    let https = ['h', 't', 't', 'p', 's', ':', '/', '/'];
    assert(http@ == seq!['h', 't', 't', 'p', ':', '/', '/']);
    assert(https@ == seq!['h', 't', 't', 'p', 's', ':', '/', '/']);
    starts_with_exec(s, &http) || starts_with_exec(s, &https)
}

pub fn is_ws_exec(c: char) -> (r: bool)
    ensures
        r == is_ws(c),
{
    ('\u{9}' <= c && c <= '\u{d}') || c == ' ' || c == '\u{85}' || c == '\u{a0}' || c
        == '\u{1680}' || ('\u{2000}' <= c && c <= '\u{200a}') || c == '\u{2028}' || c
        == '\u{2029}' || c == '\u{202f}' || c == '\u{205f}' || c == '\u{3000}'
}

pub fn is_ascii_digit_exec(c: char) -> (r: bool)
    ensures
        r == is_ascii_digit(c),
{
    '0' <= c && c <= '9'
}

proof fn lemma_trim_start_skip(s: Seq<char>, i: int)
    requires
        0 <= i <= s.len(),
        forall|j: int| 0 <= j < i ==> is_ws(s[j]),
    ensures
        trim_start(s) == trim_start(s.subrange(i, s.len() as int)),
    decreases i,
{
    if i > 0 {
        assert(s.drop_first().subrange(i - 1, s.drop_first().len() as int) =~= s.subrange(
            i,
            s.len() as int,
        ));
        lemma_trim_start_skip(s.drop_first(), i - 1);
    } else {
        assert(s.subrange(0, s.len() as int) =~= s);
    }
}

proof fn lemma_trim_end_cut(s: Seq<char>, e: int)
    requires
        0 <= e <= s.len(),
        forall|j: int| e <= j < s.len() ==> is_ws(s[j]),
    ensures
        trim_end(s) == trim_end(s.subrange(0, e)),
    decreases s.len() - e,
{
    if e < s.len() {
        assert(s.drop_last().subrange(0, e) =~= s.subrange(0, e));
        lemma_trim_end_cut(s.drop_last(), e);
    } else {
        assert(s.subrange(0, e) =~= s);
    }
}

/// Index at which `trim_start(s)` begins within `s`.
pub fn trim_start_index(s: &[char]) -> (a: usize)
    ensures
        a <= s@.len(),
        trim_start(s@) == s@.subrange(a as int, s@.len() as int),
{
    let mut a: usize = 0;
    while a < s.len() && is_ws_exec(s[a])
        invariant
            a <= s@.len(),
            forall|j: int| 0 <= j < a ==> is_ws(s@[j]),
        decreases s.len() - a,
    {
        a += 1;
    }
    proof {
        lemma_trim_start_skip(s@, a as int);
    }
    let ghost t = s@.subrange(a as int, s@.len() as int);
    assert(trim_start(t) == t);
    a
}

/// Bounds `(a, b)` of `trim(s)` within `s`.
pub fn trim_bounds(s: &[char]) -> (r: (usize, usize))
    ensures
        r.0 <= r.1 <= s@.len(),
        trim(s@) == s@.subrange(r.0 as int, r.1 as int),
{
    let mut a: usize = 0;
    while a < s.len() && is_ws_exec(s[a])
        invariant
            a <= s@.len(),
            forall|j: int| 0 <= j < a ==> is_ws(s@[j]),
        decreases s.len() - a,
    {
        a += 1;
    }
    proof {
        lemma_trim_start_skip(s@, a as int);
    }
    let ghost t = s@.subrange(a as int, s@.len() as int);
    assert(trim_start(t) == t);
    let mut b: usize = s.len();
    while b > a && is_ws_exec(s[b - 1])
        invariant
            a <= b <= s@.len(),
            forall|j: int| b <= j < s@.len() ==> is_ws(s@[j]),
        decreases b,
    {
        b -= 1;
    }
    proof {
        lemma_trim_end_cut(t, b - a);
        let u = t.subrange(0, b - a);
        assert(u =~= s@.subrange(a as int, b as int));
        if u.len() > 0 {
            assert(u.last() == s@[b - 1]);
        }
    }
    (a, b)
}

/// `str::trim`, as characters.
pub fn trim_chars(s: &[char]) -> (r: Vec<char>)
    ensures
        r@ == trim(s@),
{
    let (a, b) = trim_bounds(s);
    let mut r: Vec<char> = Vec::new();
    let mut i = a;
    while i < b
        invariant
            a <= i <= b <= s@.len(),
            r@ == s@.subrange(a as int, i as int),
        decreases b - i,
    {
        r.push(s[i]);
        assert(s@.subrange(a as int, i + 1) == s@.subrange(a as int, i as int).push(s@[i as int]));
        i += 1;
    }
    r
}

/// `s.trim().to_string()`.
pub fn trimmed_string(s: &str) -> (r: String)
    ensures
        r@ == trim(s@),
{
    let cs = to_chars(s);
    let (a, b) = trim_bounds(cs.as_slice());
    string_of(cs.as_slice(), a, b)
}

/// `o.unwrap_or_default()` as characters.
pub fn chars_or_empty(o: &Option<String>) -> (r: Vec<char>)
    ensures
        r@ == or_empty(*o),
{
    match o {
        Some(s) => to_chars(s.as_str()),
        None => Vec::new(),
    }
}

/// The trimmed text, `None` when it is empty.
pub open spec fn nonblank(s: Seq<char>) -> Option<Seq<char>> {
    if trim(s).len() == 0 {
        None
    } else {
        Some(trim(s))
    }
}

/// `Some(t.trim())` when that is non-empty.
pub fn nonblank_string(s: &[char]) -> (r: Option<String>)
    ensures
        opt_view(r) == nonblank(s@),
{
    let (a, b) = trim_bounds(s);
    if a == b {
        None
    } else {
        Some(string_of(s, a, b))
    }
}

/// `s.trim().is_empty()`.
pub fn is_blank(s: &str) -> (r: bool)
    ensures
        r == (trim(s@).len() == 0),
{
    let cs = to_chars(s);
    let (a, b) = trim_bounds(cs.as_slice());
    a == b
}

/// Appends `src[from..to]` to `dst`.
pub fn extend_chars(dst: &mut Vec<char>, src: &[char], from: usize, to: usize)
    requires
        from <= to <= src@.len(),
    ensures
        final(dst)@ == old(dst)@ + src@.subrange(from as int, to as int),
{
    let mut k = from;
    while k < to
        invariant
            from <= k <= to <= src@.len(),
            dst@ == old(dst)@ + src@.subrange(from as int, k as int),
        decreases to - k,
    {
        dst.push(src[k]);
        assert(src@.subrange(from as int, k + 1) == src@.subrange(from as int, k as int).push(
            src@[k as int],
        ));
        k += 1;
    }
}

proof fn lemma_no_match_shift(s: Seq<char>, p: Seq<char>, i: int, lo: int, hi: int)
    requires
        0 <= i <= s.len(),
        forall|j: int| i + lo <= j < i + hi ==> !matches_at(s, p, j),
    ensures
        forall|j: int|
            lo <= j < hi ==> !matches_at(s.subrange(i, s.len() as int), p, j),
{
    let rest = s.subrange(i, s.len() as int);
    assert forall|j: int| lo <= j < hi implies !matches_at(rest, p, j) by {
        if matches_at(rest, p, j) {
            assert(rest.subrange(j, j + p.len()) =~= s.subrange(i + j, i + j + p.len()));
            assert(matches_at(s, p, i + j));
        }
    }
}

/// `str::replace(from, to)` for a non-empty pattern.
pub fn replace_chars(s: &[char], from: &[char], to: &[char]) -> (r: Vec<char>)
    requires
        from@.len() > 0,
    ensures
        r@ == replace(s@, from@, to@),
{
    let mut r: Vec<char> = Vec::new();
    let mut i: usize = 0;
    let n = s.len();
    assert(s@.subrange(0, s@.len() as int) =~= s@);
    loop
        invariant
            n == s@.len(),
            from@.len() > 0,
            i <= n,
            r@ + replace(s@.subrange(i as int, n as int), from@, to@) == replace(s@, from@, to@),
        decreases n - i,
    {
        let ghost rest = s@.subrange(i as int, n as int);
        proof {
            lemma_find_from(s@, from@, i as int);
        }
        match find_from_exec(s, from, i) {
            None => {
                proof {
                    lemma_no_match_shift(s@, from@, i as int, 0, n - i + 1);
                    assert forall|j: int| 0 <= j implies !matches_at(rest, from@, j) by {
                        if j > n - i {
                        }
                    }
                    lemma_find_none(rest, from@);
                }
                extend_chars(&mut r, s, i, n);
                return r;
            },
            Some(k) => {
                proof {
                    let kk = k - i;
                    assert(rest.subrange(kk, kk + from@.len()) =~= s@.subrange(
                        k as int,
                        k + from@.len(),
                    ));
                    lemma_no_match_shift(s@, from@, i as int, 0, kk);
                    lemma_find_unique(rest, from@, kk);
                    assert(rest.subrange(0, kk) =~= s@.subrange(i as int, k as int));
                    assert(rest.subrange(kk + from@.len(), rest.len() as int) =~= s@.subrange(
                        k + from@.len(),
                        n as int,
                    ));
                }
                let ghost r0 = r@;
                extend_chars(&mut r, s, i, k);
                extend_chars(&mut r, to, 0, to.len());
                assert(to@.subrange(0, to@.len() as int) =~= to@);
                assert(r0 + s@.subrange(i as int, k as int) + to@ + replace(
                    s@.subrange(k + from@.len(), n as int),
                    from@,
                    to@,
                ) =~= r0 + (s@.subrange(i as int, k as int) + to@ + replace(
                    s@.subrange(k + from@.len(), n as int),
                    from@,
                    to@,
                )));
                assert(k + from@.len() <= n);
                i = k + from.len();
            },
        }
    }
}

// ---------- UTF-8 byte ranges ----------

/// In valid UTF-8, the byte after an ASCII byte starts a character.
pub proof fn lemma_boundary_after_ascii(bytes: Seq<u8>, k: int)
    requires
        vstd::utf8::valid_utf8(bytes),
        0 <= k < bytes.len(),
        vstd::utf8::is_char_boundary(bytes, k),
        bytes[k] < 0x80,
    ensures
        vstd::utf8::is_char_boundary(bytes, k + 1),
    decreases bytes.len(),
{
    let l = vstd::utf8::length_of_first_scalar(bytes);
    let pop = vstd::utf8::pop_first_scalar(bytes);
    if k == 0 {
        assert(l == 1);
        assert(vstd::utf8::is_char_boundary(pop, 0));
    } else {
        assert(pop.len() < bytes.len());
        assert(vstd::utf8::is_char_boundary(pop, k - l));
        assert(pop[k - l] == bytes[k]);
        lemma_boundary_after_ascii(pop, k - l);
    }
}

/// A byte index of a valid encoding that holds, or follows, an ASCII byte
/// is a character boundary; so is the end.
pub proof fn lemma_ascii_boundary(bytes: Seq<u8>, k: int)
    requires
        vstd::utf8::valid_utf8(bytes),
        0 <= k <= bytes.len(),
        k == bytes.len() || bytes[k] < 0x80 || (k > 0 && bytes[k - 1] < 0x80),
    ensures
        vstd::utf8::is_char_boundary(bytes, k),
{
    vstd::utf8::is_char_boundary_start_end_of_seq(bytes);
    if k == bytes.len() {
    } else if bytes[k] < 0x80 {
        vstd::utf8::is_char_boundary_iff_not_is_continuation_byte(bytes, k);
    } else {
        vstd::utf8::is_char_boundary_iff_not_is_continuation_byte(bytes, k - 1);
        lemma_boundary_after_ascii(bytes, k - 1);
    }
}

/// The string whose bytes are `s`'s bytes `a..e`.
pub fn str_byte_range(s: &str, a: usize, e: usize) -> (r: String)
    requires
        a <= e <= vstd::utf8::encode_utf8(s@).len(),
        vstd::utf8::is_char_boundary(vstd::utf8::encode_utf8(s@), a as int),
        vstd::utf8::is_char_boundary(vstd::utf8::encode_utf8(s@), e as int),
    ensures
        vstd::utf8::encode_utf8(r@) == vstd::utf8::encode_utf8(s@).subrange(a as int, e as int),
        r@ == vstd::utf8::decode_utf8(vstd::utf8::encode_utf8(s@).subrange(a as int, e as int)),
{
    let ghost b = vstd::utf8::encode_utf8(s@);
    proof {
        vstd::utf8::encode_utf8_valid_utf8(s@);
    }
    let (_, tail) = s.split_at(a);
    let ghost tb = vstd::utf8::encode_utf8(tail@);
    assert(tb =~= b.subrange(a as int, b.len() as int));
    proof {
        vstd::utf8::encode_utf8_valid_utf8(tail@);
        vstd::utf8::is_char_boundary_start_end_of_seq(tb);
        if e < b.len() {
            vstd::utf8::is_char_boundary_iff_not_is_continuation_byte(b, e as int);
            vstd::utf8::is_char_boundary_iff_not_is_continuation_byte(tb, e - a);
            assert(tb[e - a] == b[e as int]);
        } else {
            assert(e - a == tb.len());
        }
    }
    let (mid, _) = tail.split_at(e - a);
    let ghost mb = vstd::utf8::encode_utf8(mid@);
    assert(mb =~= b.subrange(a as int, e as int));
    proof {
        vstd::utf8::encode_utf8_decode_utf8(mid@);
    }
    String::from_str(mid)
}

} // verus!
