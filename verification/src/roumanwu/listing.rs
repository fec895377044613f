//! Listing / search page assembly.
//!
//! Listing, search and home-page sections render manga cards with the same
//! shape (`<a href="/books/{key}">…</a>` holding a title line, a cover style,
//! the latest chapter and the stats; see [`CardAnchor`]):
//! [`extract_manga_cards`] turns the card anchors into manga entries, and
//! [`has_next_page_from_html`] decides pagination from the page's anchors.
use vstd::prelude::*;

use crate::model::{ContentRating, Manga, MangaPageResult, MangaStatus, Viewer};
use crate::model;
use crate::num;
use crate::roumanwu::utils;
use crate::text;

verus! {

/// What a card anchor (`a[href^="/books/"]`) carries. The site's card shows
/// its title in a `div.truncate.text-foreground`, its cover as a
/// `background-image:url(…)` style, and `div.text-muted-foreground` lines
/// for the latest chapter (`至: …`) and the stats (views, favourites, last
/// update); the `h3` / `site-comic-*` markup is read where those are missing.
pub struct CardAnchor {
    pub href: Option<String>,
    /// Text of the first `div.truncate.text-foreground`.
    pub title_text: Option<String>,
    /// `style` of the first element whose style sets a `background-image`.
    pub cover_style: Option<String>,
    /// Texts of the `div.text-muted-foreground` lines, in order.
    pub muted_lines: Vec<String>,
    /// `title` attribute of the first `h3[title]`.
    pub h3_title_attr: Option<String>,
    /// Text of the first `h3`.
    pub h3_text: Option<String>,
    /// `src` of the first `div.site-comic-cover > img[src]`.
    pub cover: Option<String>,
    /// Text of the first `span.site-comic-chapter`.
    pub latest: Option<String>,
    /// The texts of the `span`s of the last `div.site-comic-meta` (spans
    /// without text left out); `None` when there is no such row.
    pub meta_spans: Option<Vec<String>>,
}

/// Number of occurrences of `c` in `s`.
pub open spec fn count_char(s: Seq<char>, c: char) -> nat
    decreases s.len(),
{
    if s.len() == 0 {
        0
    } else {
        count_char(s.drop_last(), c) + if s.last() == c {
            1nat
        } else {
            0nat
        }
    }
}

/// The trimmed, non-empty texts.
pub open spec fn nonblank_texts(v: Seq<Seq<char>>) -> Seq<Seq<char>>
    decreases v.len(),
{
    if v.len() == 0 {
        Seq::empty()
    } else {
        let r = nonblank_texts(v.drop_last());
        match text::nonblank(v.last()) {
            Some(t) => r.push(t),
            None => r,
        }
    }
}

/// Tags from the meta row: `地区 REGION` and `浏览 VIEWS` from its first two
/// non-empty texts (only the region when there is one text).
pub open spec fn meta_tags(spans: Option<Seq<Seq<char>>>) -> Option<Seq<Seq<char>>> {
    match spans {
        None => None,
        Some(v) => {
            let t = nonblank_texts(v);
            if t.len() >= 2 && t[0].len() > 0 && t[1].len() > 0 {
                Some(seq!["地区 "@ + t[0], "浏览 "@ + t[1]])
            } else if t.len() == 1 && t[0].len() > 0 {
                Some(seq!["地区 "@ + t[0]])
            } else {
                None
            }
        },
    }
}

/// The `h3` title: its `title` attribute, else its text, trimmed and not
/// blank.
pub open spec fn h3_title(a: CardAnchor) -> Option<Seq<char>> {
    match a.h3_title_attr {
        Some(t) => match text::nonblank(t@) {
            Some(x) => Some(x),
            None => match a.h3_text {
                Some(u) => text::nonblank(u@),
                None => None,
            },
        },
        None => match a.h3_text {
            Some(u) => text::nonblank(u@),
            None => None,
        },
    }
}

/// The cover: the URL of the `background-image` style, else the image's
/// `src`.
pub open spec fn card_cover(a: CardAnchor) -> Option<Seq<char>> {
    match a.cover_style {
        Some(st) => match utils::style_url(st@) {
            Some(u) => Some(u),
            None => text::opt_view(a.cover),
        },
        None => text::opt_view(a.cover),
    }
}

/// A muted line is the latest-chapter line when it starts with `至:`.
pub open spec fn is_latest_line(l: Seq<char>) -> bool {
    text::spec_starts_with(text::trim(l), "至:"@)
}

/// The latest chapter: what follows `至:` on the first such line, trimmed
/// and not blank.
pub open spec fn latest_line(lines: Seq<Seq<char>>) -> Option<Seq<char>>
    decreases lines.len(),
{
    if lines.len() == 0 {
        None
    } else if is_latest_line(lines[0]) {
        text::nonblank(text::strip_prefix(text::trim(lines[0]), "至:"@))
    } else {
        latest_line(lines.drop_first())
    }
}

/// The stats: the other muted lines, trimmed, blank ones left out.
pub open spec fn stat_values(lines: Seq<Seq<char>>) -> Seq<Seq<char>>
    decreases lines.len(),
{
    if lines.len() == 0 {
        Seq::empty()
    } else {
        let p = stat_values(lines.drop_last());
        let t = text::trim(lines.last());
        if t.len() > 0 && !is_latest_line(lines.last()) {
            p.push(t)
        } else {
            p
        }
    }
}

/// Tags from the stats row: `浏览 VIEWS`, `收藏 FAVOURITES`, `更新 DATE`, when
/// all three stats are present.
pub open spec fn stats_tags(lines: Seq<Seq<char>>) -> Option<Seq<Seq<char>>> {
    let s = stat_values(lines);
    if s.len() >= 3 {
        Some(seq!["浏览 "@ + s[0], "收藏 "@ + s[1], "更新 "@ + s[2]])
    } else {
        None
    }
}

/// The manga a card anchor stands for; `None` for an anchor without `href`,
/// one that is not a `/books/{key}` path (two `/`), with an empty key, or
/// without a title.
pub open spec fn card_of(a: CardAnchor, base: Seq<char>) -> Option<model::MangaView> {
    match a.href {
        None => None,
        Some(h) => {
            let href = h@;
            let key = text::last_path_segment(href);
            if count_char(href, '/') != 2 || key.len() == 0 {
                None
            } else {
                let title = match a.title_text {
                    Some(t) => match text::nonblank(t@) {
                        Some(x) => Some(x),
                        None => h3_title(a),
                    },
                    None => h3_title(a),
                };
                match title {
                    None => None,
                    Some(title) => Some(
                        model::MangaView {
                            key,
                            title,
                            cover: card_cover(a),
                            authors: None,
                            description: match latest_line(text::views(a.muted_lines@)) {
                                Some(d) => Some(d),
                                None => match a.latest {
                                    Some(l) => text::nonblank(l@),
                                    None => None,
                                },
                            },
                            url: Some(base + href),
                            tags: match stats_tags(text::views(a.muted_lines@)) {
                                Some(t) => Some(t),
                                None => meta_tags(model::opt_views(a.meta_spans)),
                            },
                            status: MangaStatus::Unknown,
                            content_rating: ContentRating::NSFW,
                            viewer: Viewer::Webtoon,
                            chapters: None,
                        },
                    ),
                }
            }
        },
    }
}

pub open spec fn keys(v: Seq<model::MangaView>) -> Seq<Seq<char>> {
    v.map_values(|m: model::MangaView| m.key)
}

/// The cards of the first `n` anchors, the first card of each key kept.
pub open spec fn cards_upto(anchors: Seq<CardAnchor>, n: int, base: Seq<char>) -> Seq<
    model::MangaView,
>
    decreases n,
{
    if n <= 0 {
        Seq::empty()
    } else {
        let prev = cards_upto(anchors, n - 1, base);
        match card_of(anchors[n - 1], base) {
            Some(m) => if keys(prev).contains(m.key) {
                prev
            } else {
                prev.push(m)
            },
            None => prev,
        }
    }
}

pub open spec fn manga_cards(anchors: Seq<CardAnchor>, base: Seq<char>) -> Seq<model::MangaView> {
    cards_upto(anchors, anchors.len() as int, base)
}

/// The text is missing, or blank once trimmed.
pub open spec fn blank_text(t: Option<String>) -> bool {
    t is None || text::trim(t->0@).len() == 0
}

/// A card's title is its title line, trimmed, whenever that line has text.
/// Otherwise it is the `h3`'s `title` attribute, trimmed, whenever that has
/// text, whatever the `h3`'s own text says; the `h3` text stands in only
/// when the line and the attribute are both missing or blank, and an anchor
/// with none of the three is no card. A single anchor that is a card gives
/// a listing of exactly that card.
pub proof fn law_card_title(a: CardAnchor, base: Seq<char>)
    ensures
        card_of(a, base) is Some && !blank_text(a.title_text) ==> card_of(a, base)->0.title
            == text::trim(a.title_text->0@),
        card_of(a, base) is Some && blank_text(a.title_text) && !blank_text(a.h3_title_attr)
            ==> card_of(a, base)->0.title == text::trim(a.h3_title_attr->0@),
        card_of(a, base) is Some && blank_text(a.title_text) && blank_text(a.h3_title_attr) ==> !blank_text(
            a.h3_text,
        ) && card_of(a, base)->0.title == text::trim(a.h3_text->0@),
        blank_text(a.title_text) && blank_text(a.h3_title_attr) && blank_text(a.h3_text)
            ==> card_of(a, base) is None,
        card_of(a, base) is Some ==> manga_cards(seq![a], base) == seq![card_of(a, base)->0],
        card_of(a, base) is None ==> manga_cards(seq![a], base) == Seq::<model::MangaView>::empty(),
{
    let s = seq![a];
    assert(s[0] == a);
    assert(cards_upto(s, 0, base) == Seq::<model::MangaView>::empty());
    if let Some(m) = card_of(a, base) {
        assert(!keys(Seq::<model::MangaView>::empty()).contains(m.key));
        assert(manga_cards(s, base) =~= seq![m]);
    }
}

/// The other fields of a card: the key is the last segment of the anchor's
/// `/books/{key}` path and the URL is the base followed by that path; the
/// cover is the `background-image` URL whenever the style holds one, else
/// the image's `src`; the description is the `至:` latest-chapter line
/// whenever one has text, else the `site-comic-chapter` text; every card is
/// an NSFW webtoon of unknown status, without authors or chapters.
pub proof fn law_card_fields(a: CardAnchor, base: Seq<char>)
    ensures
        card_of(a, base) is Some ==> a.href is Some && card_of(a, base)->0.key
            == text::last_path_segment(a.href->0@) && card_of(a, base)->0.key.len() > 0
            && card_of(a, base)->0.url == Some(base + a.href->0@),
        card_of(a, base) is Some && a.cover_style is Some && utils::style_url(a.cover_style->0@)
            is Some ==> card_of(a, base)->0.cover == utils::style_url(a.cover_style->0@),
        card_of(a, base) is Some && (a.cover_style is None || utils::style_url(
            a.cover_style->0@,
        ) is None) ==> card_of(a, base)->0.cover == text::opt_view(a.cover),
        card_of(a, base) is Some && latest_line(text::views(a.muted_lines@)) is Some ==> card_of(
            a,
            base,
        )->0.description == latest_line(text::views(a.muted_lines@)),
        card_of(a, base) is Some && latest_line(text::views(a.muted_lines@)) is None ==> card_of(
            a,
            base,
        )->0.description == (if blank_text(a.latest) {
            None
        } else {
            Some(text::trim(a.latest->0@))
        }),
        card_of(a, base) is Some ==> card_of(a, base)->0.content_rating == ContentRating::NSFW
            && card_of(a, base)->0.viewer == Viewer::Webtoon && card_of(a, base)->0.status
            == MangaStatus::Unknown && card_of(a, base)->0.authors is None && card_of(
            a,
            base,
        )->0.chapters is None,
        a.href is None ==> card_of(a, base) is None,
{
}

/// A listing never shows a manga twice: the cards' keys are distinct.
pub proof fn law_card_keys_unique(anchors: Seq<CardAnchor>, base: Seq<char>)
    ensures
        keys(manga_cards(anchors, base)).no_duplicates(),
{
    lemma_cards_upto_unique(anchors, anchors.len() as int, base);
}

proof fn lemma_cards_upto_unique(anchors: Seq<CardAnchor>, n: int, base: Seq<char>)
    ensures
        keys(cards_upto(anchors, n, base)).no_duplicates(),
    decreases n,
{
    if n > 0 {
        lemma_cards_upto_unique(anchors, n - 1, base);
        let prev = cards_upto(anchors, n - 1, base);
        if let Some(m) = card_of(anchors[n - 1], base) {
            if !keys(prev).contains(m.key) {
                let k = keys(prev.push(m));
                assert(k =~= keys(prev).push(m.key));
                assert forall|i: int, j: int|
                    (0 <= i < k.len() && 0 <= j < k.len() && i != j) implies k[i] != k[j] by {
                    if i == keys(prev).len() {
                        assert(k[j] == keys(prev)[j]);
                    } else if j == keys(prev).len() {
                        assert(k[i] == keys(prev)[i]);
                    }
                }
            }
        }
    }
}

fn count_slashes(s: &[char]) -> (r: usize)
    ensures
        r == count_char(s@, '/'),
{
    let mut r: usize = 0;
    let mut i: usize = 0;
    assert(s@.subrange(0, 0) =~= Seq::<char>::empty());
    while i < s.len()
        invariant
            i <= s@.len(),
            r == count_char(s@.subrange(0, i as int), '/'),
            r <= i,
        decreases s.len() - i,
    {
        assert(s@.subrange(0, i + 1).drop_last() =~= s@.subrange(0, i as int));
        if s[i] == '/' {
            r += 1;
        }
        i += 1;
    }
    assert(s@.subrange(0, s@.len() as int) =~= s@);
    r
}

fn meta_tags_exec(spans: &Option<Vec<String>>) -> (r: Option<Vec<String>>)
    ensures
        model::opt_views(r) == meta_tags(model::opt_views(*spans)),
{
    match spans {
        None => None,
        Some(v) => {
            let mut t: Vec<String> = Vec::new();
            let mut i: usize = 0;
            let ghost vv = text::views(v@);
            assert(vv.subrange(0, 0) =~= Seq::<Seq<char>>::empty());
            assert(text::views(t@) =~= Seq::<Seq<char>>::empty());
            while i < v.len()
                invariant
                    vv == text::views(v@),
                    i <= v@.len(),
                    text::views(t@) == nonblank_texts(vv.subrange(0, i as int)),
                decreases v.len() - i,
            {
                let ghost pre = vv.subrange(0, i + 1);
                assert(pre.drop_last() =~= vv.subrange(0, i as int));
                assert(pre.last() == v@[i as int]@);
                let cs = text::to_chars(v[i].as_str());
                if let Some(x) = text::nonblank_string(cs.as_slice()) {
                    let ghost before = text::views(t@);
                    t.push(x);
                    assert(text::views(t@) =~= before.push(x@));
                }
                i += 1;
            }
            assert(vv.subrange(0, v@.len() as int) =~= vv);
            let ghost tv = text::views(t@);
            if t.len() >= 2 && !t[0].as_str().is_empty() && !t[1].as_str().is_empty() {
                let mut a = String::from_str("地区 ");
                a.append(t[0].as_str());
                let mut b = String::from_str("浏览 ");
                b.append(t[1].as_str());
                let mut r: Vec<String> = Vec::new();
                r.push(a);
                r.push(b);
                assert(text::views(r@) =~= seq!["地区 "@ + tv[0], "浏览 "@ + tv[1]]);
                Some(r)
            } else if t.len() == 1 && !t[0].as_str().is_empty() {
                let mut a = String::from_str("地区 ");
                a.append(t[0].as_str());
                let mut r: Vec<String> = Vec::new();
                r.push(a);
                assert(text::views(r@) =~= seq!["地区 "@ + tv[0]]);
                Some(r)
            } else {
                None
            }
        },
    }
}

fn nonblank_opt(o: &Option<String>) -> (r: Option<String>)
    ensures
        text::opt_view(r) == match *o {
            Some(t) => text::nonblank(t@),
            None => None,
        },
{
    match o {
        Some(t) => {
            let cs = text::to_chars(t.as_str());
            text::nonblank_string(cs.as_slice())
        },
        None => None,
    }
}

fn is_latest_line_exec(l: &String) -> (r: bool)
    ensures
        r == is_latest_line(l@),
{
    let cs = text::to_chars(l.as_str());
    let t = text::trim_chars(cs.as_slice());
    let prefix = text::to_chars("至:");
    text::starts_with_exec(t.as_slice(), prefix.as_slice())
}

fn latest_line_exec(lines: &Vec<String>) -> (r: Option<String>)
    ensures
        text::opt_view(r) == latest_line(text::views(lines@)),
{
    let ghost lv = text::views(lines@);
    let mut i: usize = 0;
    assert(lv.subrange(0, lv.len() as int) =~= lv);
    while i < lines.len()
        invariant
            lv == text::views(lines@),
            i <= lines@.len(),
            latest_line(lv) == latest_line(lv.subrange(i as int, lv.len() as int)),
        decreases lines.len() - i,
    {
        let ghost rest = lv.subrange(i as int, lv.len() as int);
        assert(rest.drop_first() =~= lv.subrange(i + 1, lv.len() as int));
        assert(rest[0] == lines@[i as int]@);
        if is_latest_line_exec(&lines[i]) {
            let cs = text::to_chars(lines[i].as_str());
            let t = text::trim_chars(cs.as_slice());
            let prefix = text::to_chars("至:");
            let rest_chars = text::strip_prefix_chars(t.as_slice(), prefix.as_slice());
            return text::nonblank_string(rest_chars.as_slice());
        }
        i += 1;
    }
    None
}

fn stats_tags_exec(lines: &Vec<String>) -> (r: Option<Vec<String>>)
    ensures
        model::opt_views(r) == stats_tags(text::views(lines@)),
{
    let ghost lv = text::views(lines@);
    let mut vals: Vec<String> = Vec::new();
    let mut i: usize = 0;
    assert(lv.subrange(0, 0) =~= Seq::<Seq<char>>::empty());
    assert(text::views(vals@) =~= Seq::<Seq<char>>::empty());
    while i < lines.len()
        invariant
            lv == text::views(lines@),
            i <= lines@.len(),
            text::views(vals@) == stat_values(lv.subrange(0, i as int)),
        decreases lines.len() - i,
    {
        let ghost pre = lv.subrange(0, i + 1);
        assert(pre.drop_last() =~= lv.subrange(0, i as int));
        assert(pre.last() == lines@[i as int]@);
        let cs = text::to_chars(lines[i].as_str());
        let t = text::trim_chars(cs.as_slice());
        if t.len() > 0 && !is_latest_line_exec(&lines[i]) {
            let v = text::string_of(t.as_slice(), 0, t.len());
            assert(t@.subrange(0, t@.len() as int) =~= t@);
            let ghost before = text::views(vals@);
            vals.push(v);
            assert(text::views(vals@) =~= before.push(v@));
        }
        i += 1;
    }
    assert(lv.subrange(0, lv.len() as int) =~= lv);
    if vals.len() >= 3 {
        let ghost sv = text::views(vals@);
        let mut a = String::from_str("浏览 ");
        a.append(vals[0].as_str());
        let mut b = String::from_str("收藏 ");
        b.append(vals[1].as_str());
        let mut c = String::from_str("更新 ");
        c.append(vals[2].as_str());
        let mut r: Vec<String> = Vec::new();
        r.push(a);
        r.push(b);
        r.push(c);
        assert(text::views(r@) =~= seq!["浏览 "@ + sv[0], "收藏 "@ + sv[1], "更新 "@ + sv[2]]);
        Some(r)
    } else {
        None
    }
}

fn card_cover_exec(a: &CardAnchor) -> (r: Option<String>)
    ensures
        text::opt_view(r) == card_cover(*a),
{
    if let Some(st) = &a.cover_style {
        if let Some(u) = utils::extract_url_from_style(st.as_str()) {
            return Some(u);
        }
    }
    match &a.cover {
        Some(c) => Some(c.clone()),
        None => None,
    }
}

fn card_of_exec(a: &CardAnchor, base: &str) -> (r: Option<Manga>)
    ensures
        match r {
            Some(m) => card_of(*a, base@) == Some(m@),
            None => card_of(*a, base@) is None,
        },
{
    let href = match &a.href {
        Some(h) => h,
        None => {
            return None;
        },
    };
    let hc = text::to_chars(href.as_str());
    if count_slashes(hc.as_slice()) != 2 {
        return None;
    }
    let slash = ['/'];
    assert(slash@ == seq!['/']);
    proof {
        text::lemma_rfind_below(hc@, slash@, hc@.len() - 1);
    }
    let n = hc.len();
    let key = match text::rfind_exec(hc.as_slice(), &slash) {
        Some(p) => {
            assert(p < n);
            text::string_of(hc.as_slice(), p + 1, n)
        },
        None => text::string_of(hc.as_slice(), 0, n),
    };
    assert(hc@.subrange(0, n as int) =~= hc@);
    if key.as_str().is_empty() {
        return None;
    }
    let title = match nonblank_opt(&a.title_text) {
        Some(x) => Some(x),
        None => match nonblank_opt(&a.h3_title_attr) {
            Some(x) => Some(x),
            None => nonblank_opt(&a.h3_text),
        },
    };
    let title = match title {
        Some(t) => t,
        None => {
            return None;
        },
    };
    let cover = card_cover_exec(a);
    let description = match latest_line_exec(&a.muted_lines) {
        Some(d) => Some(d),
        None => nonblank_opt(&a.latest),
    };
    let tags = match stats_tags_exec(&a.muted_lines) {
        Some(t) => Some(t),
        None => meta_tags_exec(&a.meta_spans),
    };
    let mut url = String::from_str(base);
    url.append(href.as_str());
    Some(
        Manga {
            key,
            title,
            cover,
            authors: None,
            description,
            url: Some(url),
            tags,
            status: MangaStatus::Unknown,
            content_rating: ContentRating::NSFW,
            viewer: Viewer::Webtoon,
            chapters: None,
        },
    )
}

fn contains_key(v: &Vec<Manga>, key: &String) -> (r: bool)
    ensures
        r == keys(model::manga_views(v@)).contains(key@),
{
    let mut k: usize = 0;
    while k < v.len()
        invariant
            k <= v@.len(),
            forall|j: int| 0 <= j < k ==> v@[j].key@ != key@,
        decreases v.len() - k,
    {
        if v[k].key == *key {
            assert(keys(model::manga_views(v@))[k as int] == key@);
            return true;
        }
        k += 1;
    }
    proof {
        if keys(model::manga_views(v@)).contains(key@) {
            let j = choose|j: int|
                0 <= j < keys(model::manga_views(v@)).len() && keys(model::manga_views(v@))[j]
                    == key@;
            assert(v@[j].key@ == key@);
        }
    }
    false
}

/// Extract every manga card: anchors that are not `/books/{key}` paths,
/// repeated keys and entries with no title are skipped.
pub fn extract_manga_cards(anchors: &Vec<CardAnchor>, base: &str) -> (entries: Vec<Manga>)
    ensures
        model::manga_views(entries@) == manga_cards(anchors@, base@),
{
    let mut entries: Vec<Manga> = Vec::new();
    let mut i: usize = 0;
    assert(model::manga_views(entries@) =~= Seq::<model::MangaView>::empty());
    while i < anchors.len()
        invariant
            i <= anchors@.len(),
            model::manga_views(entries@) == cards_upto(anchors@, i as int, base@),
        decreases anchors.len() - i,
    {
        if let Some(m) = card_of_exec(&anchors[i], base) {
            if !contains_key(&entries, &m.key) {
                let ghost before = model::manga_views(entries@);
                entries.push(m);
                assert(model::manga_views(entries@) =~= before.push(m@));
            }
        }
        i += 1;
    }
    entries
}

/// What a pagination anchor carries.
pub struct LinkAnchor {
    pub href: Option<String>,
    pub text: Option<String>,
}

/// `page=N` with `N` the next page's index.
pub open spec fn next_page_needle(current: i32) -> Seq<char> {
    "page="@ + num::dec_int(current.wrapping_add(1) as int)
}

pub open spec fn is_next_link(a: LinkAnchor, current: i32) -> bool {
    ||| (a.href is Some && text::spec_contains(a.href->0@, next_page_needle(current)))
    ||| (a.text is Some && (text::spec_contains(a.text->0@, "下一頁"@) || text::spec_contains(
        a.text->0@,
        "Next"@,
    )))
}

/// Another page follows when an anchor links to `page=N+1`, or is labelled
/// `下一頁` / `Next`.
pub open spec fn has_next(anchors: Seq<LinkAnchor>, current: i32) -> bool {
    exists|k: int| 0 <= k < anchors.len() && is_next_link(#[trigger] anchors[k], current)
}

/// Decide whether a listing/search page has another page of results.
pub fn has_next_page_from_html(anchors: &Vec<LinkAnchor>, current_page_0idx: i32) -> (r: bool)
    ensures
        r == has_next(anchors@, current_page_0idx),
{
    let mut needle = String::from_str("page=");
    num::push_dec_i64(&mut needle, current_page_0idx.wrapping_add(1) as i64);
    let nc = text::to_chars(needle.as_str());
    let next_zh = text::to_chars("下一頁");
    let next_en = text::to_chars("Next");
    let mut k: usize = 0;
    while k < anchors.len()
        invariant
            k <= anchors@.len(),
            nc@ == next_page_needle(current_page_0idx),
            next_zh@ == "下一頁"@,
            next_en@ == "Next"@,
            forall|j: int| 0 <= j < k ==> !is_next_link(#[trigger] anchors@[j], current_page_0idx),
        decreases anchors.len() - k,
    {
        let a = &anchors[k];
        if let Some(href) = &a.href {
            let hc = text::to_chars(href.as_str());
            if text::contains_exec(hc.as_slice(), nc.as_slice()) {
                assert(is_next_link(anchors@[k as int], current_page_0idx));
                return true;
            }
        }
        if let Some(t) = &a.text {
            let tc = text::to_chars(t.as_str());
            if text::contains_exec(tc.as_slice(), next_zh.as_slice()) || text::contains_exec(
                tc.as_slice(),
                next_en.as_slice(),
            ) {
                assert(is_next_link(anchors@[k as int], current_page_0idx));
                return true;
            }
        }
        k += 1;
    }
    false
}

/// A listing page: its cards and whether another page follows.
pub fn parse_manga_listing(
    cards: &Vec<CardAnchor>,
    links: &Vec<LinkAnchor>,
    current_page_0idx: i32,
    base: &str,
) -> (r: MangaPageResult)
    ensures
        model::manga_views(r.entries@) == manga_cards(cards@, base@),
        r.has_next_page == has_next(links@, current_page_0idx),
{
    let entries = extract_manga_cards(cards, base);
    let has_next_page = has_next_page_from_html(links, current_page_0idx);
    MangaPageResult { entries, has_next_page }
}

} // verus!
