//! The detail page of a manga (`/comic/{key}.html`): title, author, tags,
//! status, description, chapter list and reading direction.
use vstd::prelude::*;

use crate::model;
use crate::model::{Chapter, ContentRating, Manga, MangaStatus, Viewer};
use crate::text;

verus! {

/// The first anchor of an item of the chapter list.
pub struct ChapterLink {
    /// The anchor's `href`.
    pub href: Option<String>,
    /// The text of the anchor's first `span`, when it has one with text.
    pub span_text: Option<String>,
    /// The anchor's own text.
    pub text: Option<String>,
}

/// What the detail page shows.
pub struct DetailPage {
    /// `src` of `div#Cover img`.
    pub cover: Option<String>,
    /// Text of the first `h1`.
    pub heading: Option<String>,
    /// Text of the first `p.txtItme` (the author line).
    pub author: Option<String>,
    /// Texts of the tag links `p.txtItme a[href*='/comics/']`; `None` when
    /// the page has no such list.
    pub tags: Option<Vec<Option<String>>>,
    /// Text of the first `span.date`.
    pub status: Option<String>,
    /// Text of the first `p.txtDesc`.
    pub description: Option<String>,
    /// The items of `ul#mh-chapter-list-ol-0 > li`, each its first anchor
    /// (`None` for an item without one); `None` when there is no list.
    pub chapters: Option<Vec<Option<ChapterLink>>>,
}

// ---------- Title ----------

/// Characters trimmed off both ends of the heading: the title brackets
/// `《` `》` and the space.
pub open spec fn is_title_edge(c: char) -> bool {
    c == '《' || c == '》' || c == ' '
}

pub open spec fn trim_title_start(s: Seq<char>) -> Seq<char>
    decreases s.len(),
{
    if s.len() > 0 && is_title_edge(s[0]) {
        trim_title_start(s.drop_first())
    } else {
        s
    }
}

pub open spec fn trim_title_end(s: Seq<char>) -> Seq<char>
    decreases s.len(),
{
    if s.len() > 0 && is_title_edge(s.last()) {
        trim_title_end(s.drop_last())
    } else {
        s
    }
}

/// The heading with brackets and spaces trimmed off both ends.
pub open spec fn clean_title(s: Seq<char>) -> Seq<char> {
    trim_title_end(trim_title_start(s))
}

proof fn lemma_title_start_skip(s: Seq<char>, i: int)
    requires
        0 <= i <= s.len(),
        forall|j: int| 0 <= j < i ==> is_title_edge(s[j]),
    ensures
        trim_title_start(s) == trim_title_start(s.subrange(i, s.len() as int)),
    decreases i,
{
    if i > 0 {
        assert(s.drop_first().subrange(i - 1, s.drop_first().len() as int) =~= s.subrange(
            i,
            s.len() as int,
        ));
        lemma_title_start_skip(s.drop_first(), i - 1);
    } else {
        assert(s.subrange(0, s.len() as int) =~= s);
    }
}

proof fn lemma_title_end_cut(s: Seq<char>, e: int)
    requires
        0 <= e <= s.len(),
        forall|j: int| e <= j < s.len() ==> is_title_edge(s[j]),
    ensures
        trim_title_end(s) == trim_title_end(s.subrange(0, e)),
    decreases s.len() - e,
{
    if e < s.len() {
        assert(s.drop_last().subrange(0, e) =~= s.subrange(0, e));
        lemma_title_end_cut(s.drop_last(), e);
    } else {
        assert(s.subrange(0, e) =~= s);
    }
}

fn is_title_edge_exec(c: char) -> (r: bool)
    ensures
        r == is_title_edge(c),
{
    c == '《' || c == '》' || c == ' '
}

/// `s.trim_matches(|c| c == '《' || c == '》' || c == ' ')`.
pub fn clean_title_exec(s: &str) -> (r: String)
    ensures
        r@ == clean_title(s@),
{
    let cs = text::to_chars(s);
    let mut a: usize = 0;
    while a < cs.len() && is_title_edge_exec(cs[a])
        invariant
            a <= cs@.len(),
            forall|j: int| 0 <= j < a ==> is_title_edge(cs@[j]),
        decreases cs.len() - a,
    {
        a += 1;
    }
    proof {
        lemma_title_start_skip(cs@, a as int);
    }
    let ghost t = cs@.subrange(a as int, cs@.len() as int);
    assert(trim_title_start(t) == t);
    let mut b: usize = cs.len();
    while b > a && is_title_edge_exec(cs[b - 1])
        invariant
            a <= b <= cs@.len(),
            forall|j: int| b <= j < cs@.len() ==> is_title_edge(cs@[j]),
        decreases b,
    {
        b -= 1;
    }
    proof {
        lemma_title_end_cut(t, b - a);
        let u = t.subrange(0, b - a);
        assert(u =~= cs@.subrange(a as int, b as int));
        if u.len() > 0 {
            assert(u.last() == cs@[b - 1]);
        }
    }
    text::string_of(cs.as_slice(), a, b)
}

// ---------- Tags, status, description ----------

/// The trimmed, non-empty tag texts, in page order.
pub open spec fn tag_texts(v: Seq<Option<String>>) -> Seq<Seq<char>>
    decreases v.len(),
{
    if v.len() == 0 {
        Seq::empty()
    } else {
        let prev = tag_texts(v.drop_last());
        match v.last() {
            Some(t) => if text::trim(t@).len() != 0 {
                prev.push(text::trim(t@))
            } else {
                prev
            },
            None => prev,
        }
    }
}

pub open spec fn page_tags(tags: Option<Vec<Option<String>>>) -> Seq<Seq<char>> {
    match tags {
        Some(v) => tag_texts(v@),
        None => Seq::empty(),
    }
}

fn tag_list(tags: &Option<Vec<Option<String>>>) -> (r: Vec<String>)
    ensures
        text::views(r@) == page_tags(*tags),
{
    let mut r: Vec<String> = Vec::new();
    assert(text::views(r@) =~= Seq::<Seq<char>>::empty());
    match tags {
        None => r,
        Some(v) => {
            let mut i: usize = 0;
            assert(v@.subrange(0, 0) =~= Seq::<Option<String>>::empty());
            while i < v.len()
                invariant
                    i <= v@.len(),
                    text::views(r@) == tag_texts(v@.subrange(0, i as int)),
                decreases v.len() - i,
            {
                assert(v@.subrange(0, i + 1).drop_last() =~= v@.subrange(0, i as int));
                assert(v@.subrange(0, i + 1).last() == v@[i as int]);
                if let Some(t) = &v[i] {
                    let cs = text::to_chars(t.as_str());
                    if let Some(x) = text::nonblank_string(cs.as_slice()) {
                        let ghost before = text::views(r@);
                        r.push(x);
                        assert(text::views(r@) =~= before.push(x@));
                    }
                }
                i += 1;
            }
            assert(v@.subrange(0, v@.len() as int) =~= v@);
            r
        },
    }
}

/// A manga is finished when its status line says `完绝` or `完結`.
pub open spec fn status_of(status_text: Seq<char>) -> MangaStatus {
    if text::spec_contains(status_text, "完绝"@) || text::spec_contains(status_text, "完結"@) {
        MangaStatus::Completed
    } else {
        MangaStatus::Ongoing
    }
}

fn status_exec(status_text: &Option<String>) -> (r: MangaStatus)
    ensures
        r == status_of(text::or_empty(*status_text)),
{
    let st = text::chars_or_empty(status_text);
    let a = text::to_chars("完绝");
    let b = text::to_chars("完結");
    if text::contains_exec(st.as_slice(), a.as_slice()) || text::contains_exec(
        st.as_slice(),
        b.as_slice(),
    ) {
        MangaStatus::Completed
    } else {
        MangaStatus::Ongoing
    }
}

/// The description without its `介绍:` label, trimmed.
pub open spec fn description_of(d: Option<String>) -> Option<Seq<char>> {
    match d {
        Some(t) => Some(text::trim(text::strip_prefix(t@, "介绍:"@))),
        None => None,
    }
}

fn description_exec(d: &Option<String>) -> (r: Option<String>)
    ensures
        text::opt_view(r) == description_of(*d),
{
    match d {
        Some(t) => {
            let cs = text::to_chars(t.as_str());
            let label = text::to_chars("介绍:");
            let rest = text::strip_prefix_chars(cs.as_slice(), label.as_slice());
            let (a, b) = text::trim_bounds(rest.as_slice());
            Some(text::string_of(rest.as_slice(), a, b))
        },
        None => None,
    }
}

/// Published, 3D and Japanese manga read right to left; the site's
/// webtoons read as a vertical strip.
pub open spec fn viewer_for(tags: Seq<Seq<char>>) -> Viewer {
    if tags.contains("出版漫画"@) || tags.contains("3D"@) || tags.contains("日漫"@) {
        Viewer::RightToLeft
    } else {
        Viewer::Webtoon
    }
}

fn has_tag(tags: &Vec<String>, tag: &str) -> (r: bool)
    ensures
        r == text::views(tags@).contains(tag@),
{
    let tc = text::to_chars(tag);
    let mut k: usize = 0;
    while k < tags.len()
        invariant
            k <= tags@.len(),
            tc@ == tag@,
            forall|j: int| 0 <= j < k ==> tags@[j]@ != tag@,
        decreases tags.len() - k,
    {
        let c = text::to_chars(tags[k].as_str());
        if c.len() == tc.len() && text::matches_at_exec(c.as_slice(), tc.as_slice(), 0) {
            assert(c@.subrange(0, tc@.len() as int) =~= c@);
            assert(text::views(tags@)[k as int] == tag@);
            return true;
        }
        if c.len() == tc.len() {
            assert(c@.subrange(0, tc@.len() as int) =~= c@);
        }
        k += 1;
    }
    proof {
        if text::views(tags@).contains(tag@) {
            let j = choose|j: int| 0 <= j < text::views(tags@).len() && text::views(tags@)[j] == tag@;
            assert(tags@[j]@ == tag@);
        }
    }
    false
}

fn viewer_exec(tags: &Vec<String>) -> (r: Viewer)
    ensures
        r == viewer_for(text::views(tags@)),
{
    if has_tag(tags, "出版漫画") || has_tag(tags, "3D") || has_tag(tags, "日漫") {
        Viewer::RightToLeft
    } else {
        Viewer::Webtoon
    }
}

// ---------- Chapters ----------

/// An absolute URL: one starting with `http` is kept, anything else is a
/// path on the site.
pub open spec fn absolute_url(href: Seq<char>, base: Seq<char>) -> Seq<char> {
    if text::spec_starts_with(href, "http"@) {
        href
    } else {
        base + href
    }
}

pub fn absolute_url_exec(href: &str, base: &str) -> (r: String)
    ensures
        r@ == absolute_url(href@, base@),
{
    let hc = text::to_chars(href);
    let http = text::to_chars("http");
    if text::starts_with_exec(hc.as_slice(), http.as_slice()) {
        String::from_str(href)
    } else {
        let mut r = String::from_str(base);
        r.append(href);
        r
    }
}

/// The chapter key of a chapter link: its last path segment without
/// `.html`, or the empty text when the segment does not end with `.html`.
pub open spec fn chapter_key(href: Seq<char>) -> Seq<char> {
    let seg = text::last_path_segment(href);
    if text::spec_ends_with(seg, ".html"@) {
        seg.subrange(0, seg.len() - 5)
    } else {
        Seq::empty()
    }
}

/// The chapter's title: its span's text, else the anchor's text, else the
/// empty text.
pub open spec fn chapter_title(link: ChapterLink) -> Seq<char> {
    match link.span_text {
        Some(t) => t@,
        None => text::or_empty(link.text),
    }
}

pub open spec fn chapter_of(link: ChapterLink, base: Seq<char>) -> model::ChapterView {
    model::ChapterView {
        key: chapter_key(text::or_empty(link.href)),
        title: Some(chapter_title(link)),
        chapter_number: None,
        url: Some(absolute_url(text::or_empty(link.href), base)),
        language: None,
    }
}

/// The chapters of the list, in page order; items without an anchor are
/// skipped.
pub open spec fn chapter_list(v: Seq<Option<ChapterLink>>, base: Seq<char>) -> Seq<model::ChapterView>
    decreases v.len(),
{
    if v.len() == 0 {
        Seq::empty()
    } else {
        let prev = chapter_list(v.drop_last(), base);
        match v.last() {
            Some(l) => prev.push(chapter_of(l, base)),
            None => prev,
        }
    }
}

pub open spec fn page_chapters(chapters: Option<Vec<Option<ChapterLink>>>, base: Seq<char>) -> Seq<
    model::ChapterView,
> {
    match chapters {
        Some(v) => chapter_list(v@, base),
        None => Seq::empty(),
    }
}

fn chapter_key_exec(href: &[char]) -> (r: String)
    ensures
        r@ == chapter_key(href@),
{
    let seg = text::last_segment_chars(href);
    let html = text::to_chars(".html");
    proof {
        reveal_strlit(".html");
    }
    if text::ends_with_exec(seg.as_slice(), html.as_slice()) {
        text::string_of(seg.as_slice(), 0, seg.len() - 5)
    } else {
        String::new()
    }
}

fn chapter_exec(link: &ChapterLink, base: &str) -> (r: Chapter)
    ensures
        r@ == chapter_of(*link, base@),
{
    let href = text::chars_or_empty(&link.href);
    let key = chapter_key_exec(href.as_slice());
    let title = match &link.span_text {
        Some(t) => t.clone(),
        None => match &link.text {
            Some(t) => t.clone(),
            None => String::new(),
        },
    };
    let href_s = text::string_of(href.as_slice(), 0, href.len());
    assert(href@.subrange(0, href@.len() as int) =~= href@);
    let url = absolute_url_exec(href_s.as_str(), base);
    Chapter { key, title: Some(title), chapter_number: None, url: Some(url), language: None }
}

fn chapters_exec(chapters: &Option<Vec<Option<ChapterLink>>>, base: &str) -> (r: Vec<Chapter>)
    ensures
        model::chapter_views(r@) == page_chapters(*chapters, base@),
{
    let mut r: Vec<Chapter> = Vec::new();
    assert(model::chapter_views(r@) =~= Seq::<model::ChapterView>::empty());
    match chapters {
        None => r,
        Some(v) => {
            let mut i: usize = 0;
            assert(v@.subrange(0, 0) =~= Seq::<Option<ChapterLink>>::empty());
            while i < v.len()
                invariant
                    i <= v@.len(),
                    model::chapter_views(r@) == chapter_list(v@.subrange(0, i as int), base@),
                decreases v.len() - i,
            {
                assert(v@.subrange(0, i + 1).drop_last() =~= v@.subrange(0, i as int));
                assert(v@.subrange(0, i + 1).last() == v@[i as int]);
                if let Some(l) = &v[i] {
                    let c = chapter_exec(l, base);
                    let ghost before = model::chapter_views(r@);
                    r.push(c);
                    assert(model::chapter_views(r@) =~= before.push(c@));
                }
                i += 1;
            }
            assert(v@.subrange(0, v@.len() as int) =~= v@);
            r
        },
    }
}

// ---------- The manga ----------

/// The detail page's URL: `{base}/comic/{key}.html`.
pub open spec fn manga_page_url(base: Seq<char>, key: Seq<char>) -> Seq<char> {
    base + "/comic/"@ + key + ".html"@
}

/// The manga a detail page describes. `fallback_title` stands in for a
/// page without a heading.
pub open spec fn manga_detail(
    key: Seq<char>,
    fallback_title: Seq<char>,
    page: DetailPage,
    base: Seq<char>,
) -> model::MangaView {
    let tags = page_tags(page.tags);
    model::MangaView {
        key,
        title: clean_title(
            match page.heading {
                Some(h) => h@,
                None => fallback_title,
            },
        ),
        cover: text::opt_view(page.cover),
        authors: match page.author {
            Some(a) => Some(seq![text::trim(a@)]),
            None => None,
        },
        description: description_of(page.description),
        url: Some(manga_page_url(base, key)),
        tags: Some(tags),
        status: status_of(text::or_empty(page.status)),
        content_rating: ContentRating::NSFW,
        viewer: viewer_for(tags),
        chapters: Some(page_chapters(page.chapters, base)),
    }
}

/// The manga's detail URL.
pub fn manga_page_url_exec(base: &str, key: &str) -> (r: String)
    ensures
        r@ == manga_page_url(base@, key@),
{
    let mut url = String::from_str(base);
    url.append("/comic/");
    url.append(key);
    url.append(".html");
    url
}

/// Assemble the manga from its detail page.
pub fn parse_manga_detail(key: &str, fallback_title: &str, page: &DetailPage, base: &str) -> (r:
    Manga)
    ensures
        r@ == manga_detail(key@, fallback_title@, *page, base@),
{
    let title = match &page.heading {
        Some(h) => clean_title_exec(h.as_str()),
        None => clean_title_exec(fallback_title),
    };
    let authors = match &page.author {
        Some(a) => {
            let mut v: Vec<String> = Vec::new();
            v.push(text::trimmed_string(a.as_str()));
            assert(text::views(v@) =~= seq![text::trim(a@)]);
            Some(v)
        },
        None => None,
    };
    let tags = tag_list(&page.tags);
    let viewer = viewer_exec(&tags);
    let cover = match &page.cover {
        Some(c) => Some(c.clone()),
        None => None,
    };
    Manga {
        key: String::from_str(key),
        title,
        cover,
        authors,
        description: description_exec(&page.description),
        url: Some(manga_page_url_exec(base, key)),
        tags: Some(tags),
        status: status_exec(&page.status),
        content_rating: ContentRating::NSFW,
        viewer,
        chapters: Some(chapters_exec(&page.chapters, base)),
    }
}

/// On an `http` base every chapter URL of a detail page is an `http` URL:
/// links that are not are paths on the site.
pub proof fn law_chapter_urls_absolute(chapters: Seq<Option<ChapterLink>>, base: Seq<char>)
    requires
        text::spec_starts_with(base, "http"@),
    ensures
        forall|i: int|
            0 <= i < chapter_list(chapters, base).len() ==> (#[trigger] chapter_list(
                chapters,
                base,
            )[i]).url is Some && text::spec_starts_with(
                chapter_list(chapters, base)[i].url->0,
                "http"@,
            ),
    decreases chapters.len(),
{
    reveal_strlit("http");
    if chapters.len() > 0 {
        law_chapter_urls_absolute(chapters.drop_last(), base);
        let prev = chapter_list(chapters.drop_last(), base);
        let all = chapter_list(chapters, base);
        assert forall|i: int| 0 <= i < all.len() implies (#[trigger] all[i]).url is Some
            && text::spec_starts_with(all[i].url->0, "http"@) by {
            if i < prev.len() {
                assert(all[i] == prev[i]);
            } else {
                let l = chapters.last()->0;
                let h = text::or_empty(l.href);
                if !text::spec_starts_with(h, "http"@) {
                    assert((base + h).subrange(0, 4) =~= base.subrange(0, 4));
                }
            }
        }
    }
}

} // verus!
