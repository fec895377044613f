//! The rouman5.com source: request URLs, deep links, and the page list of a
//! chapter.
use vstd::prelude::*;

pub mod chapter;
pub mod detail;
pub mod home;
pub mod image;
pub mod listing;
pub mod source_url;
pub mod utils;

use crate::model;
use crate::model::Page;
use crate::num;
use crate::text;

verus! {

/// The rouman5.com source.
pub struct Roumanwu;

/// Errors a request can be refused with.
#[derive(Debug, PartialEq, Eq, Structural)]
pub enum SourceError {
    /// A manga without a key cannot be looked up.
    MissingMangaKey,
}

pub open spec fn is_seg_char(c: char) -> bool {
    c != '/' && c != '?' && c != '#'
}

/// The manga slug of a `/books/{key}` link and, when a number follows as
/// the next path segment, the chapter.
pub open spec fn books_link(url: Seq<char>) -> Option<model::DeepLinkView> {
    let u = text::trim(url);
    match text::spec_find(u, "/books/"@) {
        None => None,
        Some(idx) => {
            let after = u.subrange(idx + 7, u.len() as int);
            let seg = text::take_while(after, |c: char| is_seg_char(c));
            if seg.len() == 0 {
                None
            } else {
                let rest = after.subrange(seg.len() as int, after.len() as int);
                if rest.len() > 0 && rest[0] == '/' {
                    let digits = text::take_while(rest.drop_first(), |c: char| text::is_ascii_digit(c));
                    match num::parse_i32(digits) {
                        Some(n) => Some(model::DeepLinkView::Chapter(seg, num::dec_int(n as int))),
                        None => Some(model::DeepLinkView::Manga(seg)),
                    }
                } else {
                    Some(model::DeepLinkView::Manga(seg))
                }
            }
        },
    }
}

/// The listing request for a search (`query` not blank) or the full list.
pub open spec fn search_url(base: Seq<char>, query: Option<String>, page: i32) -> Seq<char> {
    let sp = utils::spec_site_page(page);
    if query is Some && text::trim(query->0@).len() != 0 {
        base + "/search?term="@ + utils::percent_encode(vstd::utf8::encode_utf8(query->0@))
            + "&page="@ + num::dec_int(sp as int)
    } else {
        base + "/books?page="@ + num::dec_int(sp as int)
    }
}

/// The `continued` filter of a listing.
pub open spec fn listing_filter(id: Seq<char>) -> Seq<char> {
    if id == "ongoing"@ {
        "true"@
    } else if id == "completed"@ {
        "false"@
    } else {
        Seq::empty()
    }
}

pub open spec fn listing_url(base: Seq<char>, id: Seq<char>, page: i32) -> Seq<char> {
    base + "/books?continued="@ + listing_filter(id) + "&page="@ + num::dec_int(
        utils::spec_site_page(page) as int,
    )
}

/// The chapter page: the chapter's own URL if it has one, else
/// `/books/{manga}/{chapter}`, made absolute.
pub open spec fn chapter_request_url(
    base: Seq<char>,
    manga_key: Seq<char>,
    chapter_key: Seq<char>,
    chapter_url: Option<String>,
) -> Seq<char> {
    let path = match chapter_url {
        Some(u) => u@,
        None => "/books/"@ + manga_key + "/"@ + chapter_key,
    };
    chapter::chapter_url(path, base)
}

/// The value of the first context entry with the given key.
pub open spec fn context_value(ctx: Seq<(Seq<char>, Seq<char>)>, key: Seq<char>) -> Option<Seq<char>>
    decreases ctx.len(),
{
    if ctx.len() == 0 {
        None
    } else if ctx[0].0 == key {
        Some(ctx[0].1)
    } else {
        context_value(ctx.drop_first(), key)
    }
}

/// The page context asks for unscrambling: its `scramble` entry is `1`.
pub open spec fn wants_unscramble(context: Option<Seq<(Seq<char>, Seq<char>)>>) -> bool {
    match context {
        Some(c) => context_value(c, "scramble"@) == Some("1"@),
        None => false,
    }
}

fn eq_str(a: &str, b: &str) -> (r: bool)
    ensures
        r == (a@ == b@),
{
    let ac = text::to_chars(a);
    let bc = text::to_chars(b);
    if ac.len() != bc.len() {
        return false;
    }
    let r = text::matches_at_exec(ac.as_slice(), bc.as_slice(), 0);
    assert(ac@.subrange(0, bc@.len() as int) =~= ac@);
    r
}

/// Whether the first `scramble` entry of a context is `1`.
fn scramble_flag(c: &Vec<(String, String)>) -> (r: bool)
    ensures
        r == (context_value(model::entry_views(c@), "scramble"@) == Some("1"@)),
{
    let ghost cv = model::entry_views(c@);
    let mut i: usize = 0;
    assert(cv.subrange(0, cv.len() as int) =~= cv);
    while i < c.len()
        invariant
            cv == model::entry_views(c@),
            i <= c@.len(),
            context_value(cv, "scramble"@) == context_value(
                cv.subrange(i as int, cv.len() as int),
                "scramble"@,
            ),
        decreases c.len() - i,
    {
        let ghost rest = cv.subrange(i as int, cv.len() as int);
        assert(rest.drop_first() =~= cv.subrange(i + 1, cv.len() as int));
        assert(rest[0] == (c@[i as int].0@, c@[i as int].1@));
        if eq_str(c[i].0.as_str(), "scramble") {
            return eq_str(c[i].1.as_str(), "1");
        }
        i += 1;
    }
    false
}

impl Roumanwu {
    pub fn new() -> (r: Self) {
        Roumanwu
    }

    /// The listing URL of a search (non-blank `query`) or of the full list,
    /// for the app's 1-based `page`.
    pub fn search_url(&self, base: &str, query: &Option<String>, page: i32) -> (r: String)
        ensures
            r@ == search_url(base@, *query, page),
    {
        let sp = utils::site_page(page);
        let mut url = String::from_str(base);
        match query {
            Some(q) if !text::is_blank(q.as_str()) => {
                url.append("/search?term=");
                let enc = utils::urlencode(q.as_str());
                url.append(enc.as_str());
                url.append("&page=");
            },
            _ => {
                url.append("/books?page=");
            },
        }
        num::push_dec_i64(&mut url, sp as i64);
        url
    }

    /// The URL of a listing (`ongoing`, `completed`, or all) page.
    pub fn listing_url(&self, base: &str, listing_id: &str, page: i32) -> (r: String)
        ensures
            r@ == listing_url(base@, listing_id@, page),
    {
        let sp = utils::site_page(page);
        let filter = if eq_str(listing_id, "ongoing") {
            "true"
        } else if eq_str(listing_id, "completed") {
            "false"
        } else {
            ""
        };
        proof {
            reveal_strlit("");
        }
        let mut url = String::from_str(base);
        url.append("/books?continued=");
        url.append(filter);
        url.append("&page=");
        num::push_dec_i64(&mut url, sp as i64);
        url
    }

    /// The detail page URL of a manga; a manga without a key is refused.
    pub fn manga_url(&self, base: &str, key: &str) -> (r: Result<String, SourceError>)
        ensures
            key@.len() == 0 <==> r is Err,
            r matches Ok(u) ==> u@ == base@ + "/books/"@ + key@,
            r matches Err(e) ==> e == SourceError::MissingMangaKey,
    {
        if key.is_empty() {
            return Err(SourceError::MissingMangaKey);
        }
        let mut url = String::from_str(base);
        url.append("/books/");
        url.append(key);
        Ok(url)
    }

    /// The URL of the home page.
    pub fn home_url(&self, base: &str) -> (r: String)
        ensures
            r@ == base@ + "/home"@,
    {
        let mut url = String::from_str(base);
        url.append("/home");
        url
    }

    /// The URL of a chapter's page.
    pub fn chapter_request_url(
        &self,
        base: &str,
        manga_key: &str,
        chapter_key: &str,
        chapter_url: &Option<String>,
    ) -> (r: String)
        ensures
            r@ == chapter_request_url(base@, manga_key@, chapter_key@, *chapter_url),
    {
        let path = match chapter_url {
            Some(u) => u.clone(),
            None => {
                let mut p = String::from_str("/books/");
                p.append(manga_key);
                p.append("/");
                p.append(chapter_key);
                p
            },
        };
        chapter::resolve_chapter_url(path.as_str(), base)
    }

    /// The pages of a chapter from the bodies of its scripts: every page
    /// URL, the `sr:1` ones tagged for unscrambling.
    pub fn page_list(&self, scripts: &Vec<Option<String>>) -> (pages: Vec<Page>)
        ensures
            pages@.len() == chapter::chapter_pages(chapter::script_views(scripts@)).len(),
            forall|i: int|
                0 <= i < pages@.len() ==> #[trigger] pages@[i]@ == chapter::page_for(
                    chapter::chapter_pages(chapter::script_views(scripts@))[i],
                    image::is_scrambled_url(chapter::chapter_pages(chapter::script_views(scripts@))[i]),
                ),
    {
        let (_count, urls) = chapter::parse_chapter_pages(&None, scripts);
        let mut tagged: Vec<(String, bool)> = Vec::new();
        let mut i: usize = 0;
        while i < urls.len()
            invariant
                i <= urls@.len(),
                tagged@.len() == i,
                forall|j: int|
                    0 <= j < i ==> #[trigger] tagged@[j] == (
                        urls@[j],
                        image::is_scrambled_url(urls@[j]@),
                    ),
            decreases urls.len() - i,
        {
            let u = urls[i].clone();
            let s = image::unscramble_image_url(u.as_str());
            tagged.push((u, s));
            i += 1;
        }
        chapter::build_pages(tagged)
    }

    /// Does a page's context ask for unscrambling?
    pub fn needs_unscramble(&self, context: &Option<Vec<(String, String)>>) -> (r: bool)
        ensures
            r == wants_unscramble(model::context_view(*context)),
    {
        match context {
            None => false,
            Some(c) => scramble_flag(c),
        }
    }

    /// Route a deep link: `…/books/{key}` opens the manga, and
    /// `…/books/{key}/{n}` with a number `n` opens its chapter.
    pub fn handle_deep_link(&self, url: &str) -> (r: Option<model::DeepLink>)
        ensures
            model::opt_link_view(r) == books_link(url@),
    {
        let full = text::to_chars(url);
        let u = text::trim_chars(full.as_slice());
        let marker = text::to_chars("/books/");
        proof {
            reveal_strlit("/books/");
            text::lemma_find_from(u@, marker@, 0);
        }
        let n = u.len();
        let idx = match text::find_exec(u.as_slice(), marker.as_slice()) {
            None => {
                return None;
            },
            Some(i) => i,
        };
        assert(idx + 7 <= n);
        let after = text::sub_chars(u.as_slice(), idx + 7, n);
        let mut k: usize = 0;
        assert(after@.subrange(0, after@.len() as int) =~= after@);
        assert(after@.subrange(0, 0) + text::take_while(after@, |c: char| is_seg_char(c))
            =~= text::take_while(after@, |c: char| is_seg_char(c)));
        while k < after.len() && after[k] != '/' && after[k] != '?' && after[k] != '#'
            invariant
                k <= after@.len(),
                text::take_while(after@, |c: char| is_seg_char(c)) == after@.subrange(0, k as int)
                    + text::take_while(
                    after@.subrange(k as int, after@.len() as int),
                    |c: char| is_seg_char(c),
                ),
            decreases after.len() - k,
        {
            let ghost r = after@.subrange(k as int, after@.len() as int);
            assert(r.drop_first() =~= after@.subrange(k + 1, after@.len() as int));
            assert(after@.subrange(0, k + 1) =~= after@.subrange(0, k as int) + seq![r[0]]);
            k += 1;
        }
        let ghost tail = after@.subrange(k as int, after@.len() as int);
        assert(text::take_while(tail, |c: char| is_seg_char(c)) =~= Seq::<char>::empty());
        assert(text::take_while(after@, |c: char| is_seg_char(c)) =~= after@.subrange(0, k as int));
        if k == 0 {
            return None;
        }
        let seg = text::string_of(after.as_slice(), 0, k);
        if k < after.len() && after[k] == '/' {
            let mut d = k + 1;
            let ghost dtail = after@.subrange(k + 1, after@.len() as int);
            assert(after@.subrange(k + 1, k + 1) + text::take_while(
                dtail,
                |c: char| text::is_ascii_digit(c),
            ) =~= text::take_while(dtail, |c: char| text::is_ascii_digit(c)));
            while d < after.len() && text::is_ascii_digit_exec(after[d])
                invariant
                    k + 1 <= d <= after@.len(),
                    text::take_while(
                        after@.subrange(k + 1, after@.len() as int),
                        |c: char| text::is_ascii_digit(c),
                    ) == after@.subrange(k + 1, d as int) + text::take_while(
                        after@.subrange(d as int, after@.len() as int),
                        |c: char| text::is_ascii_digit(c),
                    ),
                decreases after.len() - d,
            {
                let ghost r = after@.subrange(d as int, after@.len() as int);
                assert(r.drop_first() =~= after@.subrange(d + 1, after@.len() as int));
                assert(after@.subrange(k + 1, d + 1) =~= after@.subrange(k + 1, d as int) + seq![
                    r[0],
                ]);
                d += 1;
            }
            let ghost dt = after@.subrange(d as int, after@.len() as int);
            assert(text::take_while(dt, |c: char| text::is_ascii_digit(c)) =~= Seq::<
                char,
            >::empty());
            assert(tail.drop_first() =~= after@.subrange(k + 1, after@.len() as int));
            let digits = text::sub_chars(after.as_slice(), k + 1, d);
            assert(digits@ =~= text::take_while(tail.drop_first(), |c: char| text::is_ascii_digit(c)));
            if let Some(chapter) = num::parse_i32_exec(digits.as_slice()) {
                return Some(model::DeepLink::Chapter { manga_key: seg, key: num::i32_to_string(chapter) });
            }
        }
        Some(model::DeepLink::Manga { key: seg })
    }
}

/// The image processor unscrambles exactly the pages the page list tagged:
/// a page built for a URL asks for unscrambling if and only if it was built
/// as a scrambled one.
pub proof fn law_page_context_round_trip(url: Seq<char>, scrambled: bool)
    ensures
        wants_unscramble(chapter::page_for(url, scrambled).context) == scrambled,
{
    if scrambled {
        assert(context_value(chapter::scramble_context(), "scramble"@) == Some("1"@));
    }
}

/// A manga's detail URL leads back to the manga: the deep link of
/// `{base}/books/{key}` opens `key`, for a non-empty key without `/`, `?`
/// or `#` that does not end with whitespace, on a base that does not start
/// with whitespace and has no `/books/` of its own.
pub proof fn law_manga_link_round_trip(base: Seq<char>, key: Seq<char>)
    requires
        base.len() > 0,
        !text::is_ws(base[0]),
        text::spec_find(base + "/books/"@, "/books/"@) == Some(base.len() as int),
        key.len() > 0,
        !text::is_ws(key.last()),
        forall|i: int| 0 <= i < key.len() ==> is_seg_char(#[trigger] key[i]),
    ensures
        books_link(base + "/books/"@ + key) == Some(model::DeepLinkView::Manga(key)),
{
    reveal_strlit("/books/");
    let url = base + "/books/"@ + key;
    text::lemma_trim_noop(url);
    text::lemma_find_extend(base + "/books/"@, key, "/books/"@, base.len() as int);
    let after = url.subrange(base.len() + 7int, url.len() as int);
    assert(after =~= key);
    text::lemma_take_while_prefix(key, Seq::empty(), |c: char| is_seg_char(c));
    assert(key + Seq::<char>::empty() =~= key);
    assert(text::take_while(Seq::<char>::empty(), |c: char| is_seg_char(c)) =~= Seq::<char>::empty());
    assert(after.subrange(key.len() as int, after.len() as int) =~= Seq::<char>::empty());
}

/// A chapter's page URL leads back to the chapter: the deep link of the
/// page URL of chapter `n` (`{base}/books/{key}/{n}`) opens that chapter,
/// for `n >= 0` and a non-empty manga key without `/`, `?` or `#`, on a
/// base that does not start with whitespace and has no `/books/` of its
/// own.
pub proof fn law_chapter_link_round_trip(base: Seq<char>, key: Seq<char>, n: i32)
    requires
        base.len() > 0,
        !text::is_ws(base[0]),
        text::spec_find(base + "/books/"@, "/books/"@) == Some(base.len() as int),
        key.len() > 0,
        forall|i: int| 0 <= i < key.len() ==> is_seg_char(#[trigger] key[i]),
        n >= 0,
    ensures
        books_link(chapter_request_url(base, key, num::dec_int(n as int), None)) == Some(
            model::DeepLinkView::Chapter(key, num::dec_int(n as int)),
        ),
{
    reveal_strlit("/books/");
    reveal_strlit("/");
    let d = num::dec_int(n as int);
    num::lemma_dec_nat_digits(n as nat);
    num::lemma_parse_dec_i32(n);
    let path = "/books/"@ + key + "/"@ + d;
    assert(path[0] == '/');
    assert(!text::is_http_url(path));
    let url = base + path;
    assert(chapter_request_url(base, key, d, None) == url);
    assert(url.last() == d.last());
    assert('0' <= d[d.len() - 1] <= '9');
    text::lemma_trim_noop(url);
    let tail = key + "/"@ + d;
    assert(url =~= (base + "/books/"@) + tail);
    text::lemma_find_extend(base + "/books/"@, tail, "/books/"@, base.len() as int);
    let after = url.subrange(base.len() + 7int, url.len() as int);
    assert(after =~= key + ("/"@ + d));
    text::lemma_take_while_prefix(key, "/"@ + d, |c: char| is_seg_char(c));
    assert(text::take_while("/"@ + d, |c: char| is_seg_char(c)) =~= Seq::<char>::empty());
    assert(key + Seq::<char>::empty() =~= key);
    let rest = after.subrange(key.len() as int, after.len() as int);
    assert(rest =~= "/"@ + d);
    assert(rest.drop_first() =~= d);
    text::lemma_take_while_prefix(d, Seq::empty(), |c: char| text::is_ascii_digit(c));
    assert(d + Seq::<char>::empty() =~= d);
    assert(text::take_while(Seq::<char>::empty(), |c: char| text::is_ascii_digit(c)) =~= Seq::<
        char,
    >::empty());
}

} // verus!
