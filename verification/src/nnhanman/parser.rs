//! Card lists and pagination of nnhm7.com pages.
//!
//! The browse grid (`ul.col_3_1 > li`), the item boxes of `/update` and
//! `/ranking` (`div.itemBox`) and the home sections all show manga cards
//! that link to `/comic/{slug}.html`. [`slug_from_url`] recovers the key
//! from such a link, [`parse_manga_grid`] and [`parse_manga_list`] build
//! the entries, and [`has_next_page`] decides pagination from the page's
//! anchors.
use vstd::prelude::*;

use crate::model;
use crate::model::{ContentRating, Manga, MangaStatus, Viewer};
use crate::num;
use crate::text;

verus! {

/// Why a page could not be turned into entries.
#[derive(Clone, Copy, Debug, PartialEq, Eq, Structural)]
pub enum ParseError {
    /// The browse grid has no `ul.col_3_1 > li` list.
    NoListItems,
    /// The page has no `div.itemBox` cards.
    NoItems,
    /// A manga without a key cannot be looked up.
    MissingMangaKey,
}

/// The manga key of a `/comic/{slug}` link: what follows the first
/// `/comic/`, without a trailing `.html` and then without a trailing `/`;
/// `None` when the link has no `/comic/` or the slug is empty.
pub open spec fn slug_of(url: Seq<char>) -> Option<Seq<char>> {
    match text::spec_find(url, "/comic/"@) {
        None => None,
        Some(i) => {
            let rest = url.subrange(i + 7, url.len() as int);
            let slug = text::strip_suffix(text::strip_suffix(rest, ".html"@), "/"@);
            if slug.len() == 0 {
                None
            } else {
                Some(slug)
            }
        },
    }
}

/// The manga key of a `/comic/{slug}.html` link.
pub fn slug_from_url(url: &str) -> (r: Option<String>)
    ensures
        text::opt_view(r) == slug_of(url@),
{
    let u = text::to_chars(url);
    let marker = text::to_chars("/comic/");
    proof {
        reveal_strlit("/comic/");
        text::lemma_find_from(u@, marker@, 0);
    }
    let idx = match text::find_exec(u.as_slice(), marker.as_slice()) {
        None => {
            return None;
        },
        Some(i) => i,
    };
    let n = u.len();
    assert(idx + 7 <= n);
    let rest = text::sub_chars(u.as_slice(), idx + 7, n);
    let html = text::to_chars(".html");
    let slash = ['/'];
    proof {
        reveal_strlit("/");
        assert(slash@ =~= "/"@);
    }
    let s1 = text::strip_suffix_chars(rest.as_slice(), html.as_slice());
    let s2 = text::strip_suffix_chars(s1.as_slice(), &slash);
    if s2.len() == 0 {
        None
    } else {
        Some(text::string_of(s2.as_slice(), 0, s2.len()))
    }
}

/// What a manga card shows.
pub struct CardItem {
    /// `href` of the card's cover link (`a.ImgA` in a grid, `div.itemImg > a`
    /// in an item box); `None` when the card has no such link or the link
    /// has no `href`.
    pub href: Option<String>,
    /// The preferred `title` attribute (the cover link's in a grid, the
    /// `a.title` link's in an item box).
    pub title: Option<String>,
    /// The fallback `title` attribute (the `a.txtA` link's in a grid, the
    /// cover link's in an item box).
    pub alt_title: Option<String>,
    /// `src` of the card's image.
    pub cover: Option<String>,
}

/// The preferred title attribute, else the fallback, else the empty text.
pub open spec fn card_title(item: CardItem) -> Seq<char> {
    match item.title {
        Some(t) => t@,
        None => text::or_empty(item.alt_title),
    }
}

/// A listing entry: key, title and cover, every other field at its default.
pub open spec fn listing_entry(key: Seq<char>, title: Seq<char>, cover: Option<Seq<char>>) -> model::MangaView {
    model::MangaView {
        key,
        title,
        cover,
        authors: None,
        description: None,
        url: None,
        tags: None,
        status: MangaStatus::Unknown,
        content_rating: ContentRating::Unknown,
        viewer: Viewer::Unknown,
        chapters: None,
    }
}

/// The entry a card stands for; `None` for a card whose link is not a
/// `/comic/{slug}` link.
pub open spec fn card_manga(item: CardItem) -> Option<model::MangaView> {
    match item.href {
        None => None,
        Some(h) => match slug_of(h@) {
            None => None,
            Some(key) => Some(listing_entry(key, card_title(item), text::opt_view(item.cover))),
        },
    }
}

/// The entries of the cards, in page order, cards without a manga link
/// skipped.
pub open spec fn card_entries(items: Seq<CardItem>) -> Seq<model::MangaView>
    decreases items.len(),
{
    if items.len() == 0 {
        Seq::empty()
    } else {
        let prev = card_entries(items.drop_last());
        match card_manga(items.last()) {
            Some(m) => prev.push(m),
            None => prev,
        }
    }
}

fn opt_clone(o: &Option<String>) -> (r: Option<String>)
    ensures
        text::opt_view(r) == text::opt_view(*o),
{
    match o {
        Some(s) => Some(s.clone()),
        None => None,
    }
}

fn card_manga_exec(item: &CardItem) -> (r: Option<Manga>)
    ensures
        match r {
            Some(m) => card_manga(*item) == Some(m@),
            None => card_manga(*item) is None,
        },
{
    let href = match &item.href {
        Some(h) => h,
        None => {
            return None;
        },
    };
    let key = match slug_from_url(href.as_str()) {
        Some(k) => k,
        None => {
            return None;
        },
    };
    let title = match &item.title {
        Some(t) => t.clone(),
        None => match &item.alt_title {
            Some(t) => t.clone(),
            None => String::new(),
        },
    };
    Some(
        Manga {
            key,
            title,
            cover: opt_clone(&item.cover),
            authors: None,
            description: None,
            url: None,
            tags: None,
            status: MangaStatus::Unknown,
            content_rating: ContentRating::Unknown,
            viewer: Viewer::Unknown,
            chapters: None,
        },
    )
}

/// The entries of the cards, in page order.
pub fn card_entries_exec(items: &Vec<CardItem>) -> (r: Vec<Manga>)
    ensures
        model::manga_views(r@) == card_entries(items@),
{
    let mut r: Vec<Manga> = Vec::new();
    let mut i: usize = 0;
    assert(items@.subrange(0, 0) =~= Seq::<CardItem>::empty());
    assert(model::manga_views(r@) =~= Seq::<model::MangaView>::empty());
    while i < items.len()
        invariant
            i <= items@.len(),
            model::manga_views(r@) == card_entries(items@.subrange(0, i as int)),
        decreases items.len() - i,
    {
        assert(items@.subrange(0, i + 1).drop_last() =~= items@.subrange(0, i as int));
        assert(items@.subrange(0, i + 1).last() == items@[i as int]);
        if let Some(m) = card_manga_exec(&items[i]) {
            let ghost before = model::manga_views(r@);
            r.push(m);
            assert(model::manga_views(r@) =~= before.push(m@));
        }
        i += 1;
    }
    assert(items@.subrange(0, items@.len() as int) =~= items@);
    r
}

/// The entries of a browse grid (`ul.col_3_1 > li`); `None` when the page
/// has no such list.
pub fn parse_manga_grid(items: &Option<Vec<CardItem>>) -> (r: Result<Vec<Manga>, ParseError>)
    ensures
        match *items {
            None => r == Err::<Vec<Manga>, ParseError>(ParseError::NoListItems),
            Some(v) => r matches Ok(e) && model::manga_views(e@) == card_entries(v@),
        },
{
    match items {
        None => Err(ParseError::NoListItems),
        Some(v) => Ok(card_entries_exec(v)),
    }
}

/// The entries of the item boxes of `/update` or `/ranking`
/// (`div.itemBox`); `None` when the page has no such boxes.
pub fn parse_manga_list(items: &Option<Vec<CardItem>>) -> (r: Result<Vec<Manga>, ParseError>)
    ensures
        match *items {
            None => r == Err::<Vec<Manga>, ParseError>(ParseError::NoItems),
            Some(v) => r matches Ok(e) && model::manga_views(e@) == card_entries(v@),
        },
{
    match items {
        None => Err(ParseError::NoItems),
        Some(v) => Ok(card_entries_exec(v)),
    }
}

/// `/page/N` with `N` the next page's number.
pub open spec fn next_page_marker(current: i32) -> Seq<char> {
    "/page/"@ + num::dec_int(current.wrapping_add(1) as int)
}

/// Some anchor's `href` contains `/page/N` for the next page `N`; `hrefs`
/// is `None` when the page could not be parsed or has no anchors.
pub open spec fn links_to_next(hrefs: Option<Seq<Option<String>>>, current: i32) -> bool {
    match hrefs {
        None => false,
        Some(v) => exists|k: int|
            0 <= k < v.len() && (#[trigger] v[k]) is Some && text::spec_contains(
                v[k]->0@,
                next_page_marker(current),
            ),
    }
}

pub open spec fn opt_seq<A>(o: Option<Vec<A>>) -> Option<Seq<A>> {
    match o {
        Some(v) => Some(v@),
        None => None,
    }
}

fn any_links_to(v: &Vec<Option<String>>, current_page: i32) -> (r: bool)
    ensures
        r == links_to_next(Some(v@), current_page),
{
    let mut needle = String::from_str("/page/");
    num::push_dec_i64(&mut needle, current_page.wrapping_add(1) as i64);
    let nc = text::to_chars(needle.as_str());
    let mut k: usize = 0;
    while k < v.len()
        invariant
            k <= v@.len(),
            nc@ == next_page_marker(current_page),
            forall|j: int|
                0 <= j < k ==> !((#[trigger] v@[j]) is Some && text::spec_contains(
                    v@[j]->0@,
                    next_page_marker(current_page),
                )),
        decreases v.len() - k,
    {
        if let Some(h) = &v[k] {
            let hc = text::to_chars(h.as_str());
            if text::contains_exec(hc.as_slice(), nc.as_slice()) {
                assert(v@[k as int] is Some && text::spec_contains(
                    v@[k as int]->0@,
                    next_page_marker(current_page),
                ));
                return true;
            }
        }
        k += 1;
    }
    false
}

/// Does the browse page link to the next page? Pagination is a list of
/// `<a href="/comics/.../page/N">` anchors; only anchor targets are looked
/// at, not the page's whole text.
pub fn has_next_page(hrefs: &Option<Vec<Option<String>>>, current_page: i32) -> (r: bool)
    ensures
        r == links_to_next(opt_seq(*hrefs), current_page),
{
    match hrefs {
        None => false,
        Some(v) => any_links_to(v, current_page),
    }
}

} // verus!
