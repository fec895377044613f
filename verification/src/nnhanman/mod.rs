//! The nnhm7.com source: browse and search requests, the detail page, the
//! page list of a chapter, the home page and deep links.
use vstd::prelude::*;

pub mod detail;
pub mod filters;
pub mod parser;
pub mod source_url;

use crate::model;
use crate::model::{HomeComponent, HomeSectionKind, Manga, MangaPageResult, Page};
use crate::nnhanman::detail::DetailPage;
use crate::nnhanman::parser::{CardItem, ParseError};
use crate::num;
use crate::text;

verus! {

/// The nnhm7.com source.
pub struct Nnhm7;

/// A filter value chosen in the app.
pub enum FilterValue {
    /// A select filter: its id and the chosen option's id.
    Select { id: String, value: String },
    /// A sort filter: its id and the chosen option's index.
    Sort { id: String, index: i32, ascending: bool },
    /// Any other filter; browsing ignores it.
    Other,
}

/// The browse settings the filters choose.
pub struct BrowseView {
    pub kind: Seq<char>,
    pub category: Seq<char>,
    pub status: Seq<char>,
    pub sort: Seq<char>,
}

pub open spec fn default_browse() -> BrowseView {
    BrowseView { kind: "all"@, category: "all"@, status: "all"@, sort: "time"@ }
}

/// The sort key of a sort option: `hits` for the second, `time` for any
/// other.
pub open spec fn sort_key(index: i32) -> Seq<char> {
    if index == 1 {
        "hits"@
    } else {
        "time"@
    }
}

pub open spec fn apply_filter(b: BrowseView, f: FilterValue) -> BrowseView {
    match f {
        FilterValue::Select { id, value } => if id@ == "kind"@ {
            BrowseView { kind: value@, category: b.category, status: b.status, sort: b.sort }
        } else if id@ == "category"@ {
            BrowseView { kind: b.kind, category: value@, status: b.status, sort: b.sort }
        } else if id@ == "status"@ {
            BrowseView { kind: b.kind, category: b.category, status: value@, sort: b.sort }
        } else {
            b
        },
        FilterValue::Sort { id, index, ascending } => if id@ == "sort"@ {
            BrowseView { kind: b.kind, category: b.category, status: b.status, sort: sort_key(index) }
        } else {
            b
        },
        FilterValue::Other => b,
    }
}

/// The browse settings after the filters, applied in order (a later value
/// for the same filter wins).
pub open spec fn browse_settings(filters: Seq<FilterValue>) -> BrowseView
    decreases filters.len(),
{
    if filters.len() == 0 {
        default_browse()
    } else {
        apply_filter(browse_settings(filters.drop_last()), filters.last())
    }
}

/// How the cards of a listing page are laid out.
#[derive(Clone, Copy, Debug, PartialEq, Eq, Structural)]
pub enum CardLayout {
    /// The browse grid, `ul.col_3_1 > li`.
    Grid,
    /// The item boxes, `div.itemBox`.
    ItemBox,
}

/// The request a search or browse makes, and how its page is read.
pub struct SearchPlan {
    pub url: String,
    pub layout: CardLayout,
    /// The page is one of many: whether another follows is looked up.
    pub paginated: bool,
    /// A page without its card list is an error (else it has no entries).
    pub strict: bool,
}

pub struct SearchPlanView {
    pub url: Seq<char>,
    pub layout: CardLayout,
    pub paginated: bool,
    pub strict: bool,
}

impl View for SearchPlan {
    type V = SearchPlanView;

    open spec fn view(&self) -> SearchPlanView {
        SearchPlanView {
            url: self.url@,
            layout: self.layout,
            paginated: self.paginated,
            strict: self.strict,
        }
    }
}

/// A text search (non-empty query) goes to the catalog search; else the
/// `kind` filter picks `/update`, `/ranking`, or the paginated browse
/// `/comics/all/{category}/{sort}/st/{status}/page/{page}`.
pub open spec fn search_plan_of(
    base: Seq<char>,
    query: Option<String>,
    encoded_query: Seq<char>,
    page: i32,
    filters: Seq<FilterValue>,
) -> SearchPlanView {
    if text::or_empty(query).len() != 0 {
        SearchPlanView {
            url: base + "/catalog.php?key="@ + encoded_query,
            layout: CardLayout::Grid,
            paginated: true,
            strict: true,
        }
    } else {
        let b = browse_settings(filters);
        if b.kind == "latest"@ {
            SearchPlanView {
                url: base + "/update"@,
                layout: CardLayout::ItemBox,
                paginated: false,
                strict: false,
            }
        } else if b.kind == "ranking"@ {
            SearchPlanView {
                url: base + "/ranking"@,
                layout: CardLayout::ItemBox,
                paginated: false,
                strict: false,
            }
        } else {
            SearchPlanView {
                url: base + "/comics/all/"@ + b.category + "/"@ + b.sort + "/st/"@ + b.status
                    + "/page/"@ + num::dec_int(page as int),
                layout: CardLayout::Grid,
                paginated: true,
                strict: false,
            }
        }
    }
}

/// The entries of a listing page, an empty list standing in for a page
/// without cards.
pub open spec fn entries_of(cards: Option<Vec<CardItem>>) -> Seq<model::MangaView> {
    match cards {
        Some(v) => parser::card_entries(v@),
        None => Seq::empty(),
    }
}

/// The error for a page without its card list.
pub open spec fn missing_cards(layout: CardLayout) -> ParseError {
    match layout {
        CardLayout::Grid => ParseError::NoListItems,
        CardLayout::ItemBox => ParseError::NoItems,
    }
}

fn eq_str(a: &str, b: &str) -> (r: bool)
    ensures
        r == (a@ == b@),
{
    let ac = text::to_chars(a);
    let bc = text::to_chars(b);
    if ac.len() != bc.len() {
        return false;
    }
    let r = text::matches_at_exec(ac.as_slice(), bc.as_slice(), 0);
    assert(ac@.subrange(0, bc@.len() as int) =~= ac@);
    r
}

struct Browse {
    kind: String,
    category: String,
    status: String,
    sort: String,
}

impl View for Browse {
    type V = BrowseView;

    closed spec fn view(&self) -> BrowseView {
        BrowseView {
            kind: self.kind@,
            category: self.category@,
            status: self.status@,
            sort: self.sort@,
        }
    }
}

fn browse_exec(filters: &Vec<FilterValue>) -> (r: Browse)
    ensures
        r@ == browse_settings(filters@),
{
    let mut b = Browse {
        kind: String::from_str("all"),
        category: String::from_str("all"),
        status: String::from_str("all"),
        sort: String::from_str("time"),
    };
    let mut i: usize = 0;
    assert(filters@.subrange(0, 0) =~= Seq::<FilterValue>::empty());
    while i < filters.len()
        invariant
            i <= filters@.len(),
            b@ == browse_settings(filters@.subrange(0, i as int)),
        decreases filters.len() - i,
    {
        assert(filters@.subrange(0, i + 1).drop_last() =~= filters@.subrange(0, i as int));
        assert(filters@.subrange(0, i + 1).last() == filters@[i as int]);
        match &filters[i] {
            FilterValue::Select { id, value } => {
                if eq_str(id.as_str(), "kind") {
                    b.kind = value.clone();
                } else if eq_str(id.as_str(), "category") {
                    b.category = value.clone();
                } else if eq_str(id.as_str(), "status") {
                    b.status = value.clone();
                }
            },
            FilterValue::Sort { id, index, ascending: _ } => {
                if eq_str(id.as_str(), "sort") {
                    b.sort = if *index == 1 {
                        String::from_str("hits")
                    } else {
                        String::from_str("time")
                    };
                }
            },
            FilterValue::Other => {},
        }
        i += 1;
    }
    assert(filters@.subrange(0, filters@.len() as int) =~= filters@);
    b
}

/// The home layout: one manga list per `div.imgBox` section that has
/// cards, titled by its `span.Title`.
pub struct HomeSection {
    /// Text of the section's `span.Title`.
    pub title: Option<String>,
    /// The section's cards (`ul.col_3_1 > li`); `None` when it has no list.
    pub cards: Option<Vec<CardItem>>,
}

pub open spec fn home_list() -> HomeSectionKind {
    HomeSectionKind::MangaList { ranking: false, page_size: 3 }
}

/// The components of the sections, in page order; a section without
/// entries gives none.
pub open spec fn home_components(sections: Seq<HomeSection>) -> Seq<model::HomeComponentView>
    decreases sections.len(),
{
    if sections.len() == 0 {
        Seq::empty()
    } else {
        let prev = home_components(sections.drop_last());
        let s = sections.last();
        let entries = entries_of(s.cards);
        if entries.len() == 0 {
            prev
        } else {
            prev.push(
                model::HomeComponentView {
                    title: Some(text::or_empty(s.title)),
                    subtitle: None,
                    kind: home_list(),
                    entries,
                },
            )
        }
    }
}

/// Every home component is an unranked manga list of page size three with
/// a title, no subtitle and at least one entry; there are never more
/// components than sections.
pub proof fn law_home_components(sections: Seq<HomeSection>)
    ensures
        home_components(sections).len() <= sections.len(),
        forall|k: int|
            0 <= k < home_components(sections).len() ==> (#[trigger] home_components(sections)[k]).kind
                == (HomeSectionKind::MangaList { ranking: false, page_size: 3 })
                && home_components(sections)[k].subtitle is None
                && home_components(sections)[k].entries.len() > 0
                && home_components(sections)[k].title is Some,
    decreases sections.len(),
{
    if sections.len() > 0 {
        law_home_components(sections.drop_last());
    }
}

pub open spec fn home_layout_of(sections: Option<Vec<HomeSection>>) -> Seq<model::HomeComponentView> {
    match sections {
        Some(v) => home_components(v@),
        None => Seq::empty(),
    }
}

/// The page of a chapter: its own URL, else
/// `{base}/comic/{manga}/chapter-{chapter}.html`, made absolute.
pub open spec fn chapter_page_url(
    base: Seq<char>,
    manga_key: Seq<char>,
    chapter_key: Seq<char>,
    chapter_url: Option<String>,
) -> Seq<char> {
    let u = match chapter_url {
        Some(u) => u@,
        None => base + "/comic/"@ + manga_key + "/chapter-"@ + chapter_key + ".html"@,
    };
    detail::absolute_url(u, base)
}

/// The image attributes of an `img[data-index]` of a chapter page.
pub struct ImageAttrs {
    pub data_src: Option<String>,
    pub src: Option<String>,
}

/// The image URL: `data-src`, else `src`.
pub open spec fn image_source(img: ImageAttrs) -> Option<Seq<char>> {
    match img.data_src {
        Some(d) => Some(d@),
        None => text::opt_view(img.src),
    }
}

/// The pages of the images, in page order: those whose URL points at the
/// `nnpic.xyz` image host.
pub open spec fn image_pages(imgs: Seq<ImageAttrs>) -> Seq<model::PageView>
    decreases imgs.len(),
{
    if imgs.len() == 0 {
        Seq::empty()
    } else {
        let prev = image_pages(imgs.drop_last());
        match image_source(imgs.last()) {
            Some(u) => if text::spec_contains(u, "nnpic.xyz"@) {
                prev.push(model::PageView { url: u, context: None })
            } else {
                prev
            },
            None => prev,
        }
    }
}

pub open spec fn page_views(v: Seq<Page>) -> Seq<model::PageView> {
    v.map_values(|p: Page| p@)
}

/// Where a `/comic/` link leads: `/comic/{slug}/chapter-{n}` with a
/// non-empty slug and digits `n` opens the chapter; else the slug (the rest
/// of the link without a trailing `.html`, then without a trailing `/`, as
/// [`parser::slug_of`] reads it) opens the manga.
pub open spec fn comic_link(url: Seq<char>) -> Option<model::DeepLinkView> {
    let u = text::trim(url);
    match text::spec_find(u, "/comic/"@) {
        None => None,
        Some(idx) => {
            let after = u.subrange(idx + 7, u.len() as int);
            let chapter = match text::spec_find(after, "/chapter-"@) {
                Some(c) => {
                    let slug = after.subrange(0, c);
                    let id = text::take_while(
                        after.subrange(c + 9, after.len() as int),
                        |ch: char| text::is_ascii_digit(ch),
                    );
                    if slug.len() > 0 && id.len() > 0 {
                        Some(model::DeepLinkView::Chapter(slug, id))
                    } else {
                        None
                    }
                },
                None => None,
            };
            match chapter {
                Some(l) => Some(l),
                None => {
                    let slug = text::strip_suffix(text::strip_suffix(after, ".html"@), "/"@);
                    if slug.len() > 0 {
                        Some(model::DeepLinkView::Manga(slug))
                    } else {
                        None
                    }
                },
            }
        },
    }
}

fn digits_prefix(s: &[char], from: usize) -> (r: usize)
    requires
        from <= s@.len(),
    ensures
        from <= r <= s@.len(),
        s@.subrange(from as int, r as int) == text::take_while(
            s@.subrange(from as int, s@.len() as int),
            |ch: char| text::is_ascii_digit(ch),
        ),
{
    let mut d = from;
    assert(s@.subrange(from as int, from as int) + text::take_while(
        s@.subrange(from as int, s@.len() as int),
        |ch: char| text::is_ascii_digit(ch),
    ) =~= text::take_while(
        s@.subrange(from as int, s@.len() as int),
        |ch: char| text::is_ascii_digit(ch),
    ));
    while d < s.len() && text::is_ascii_digit_exec(s[d])
        invariant
            from <= d <= s@.len(),
            text::take_while(
                s@.subrange(from as int, s@.len() as int),
                |ch: char| text::is_ascii_digit(ch),
            ) == s@.subrange(from as int, d as int) + text::take_while(
                s@.subrange(d as int, s@.len() as int),
                |ch: char| text::is_ascii_digit(ch),
            ),
        decreases s.len() - d,
    {
        let ghost r = s@.subrange(d as int, s@.len() as int);
        assert(r.drop_first() =~= s@.subrange(d + 1, s@.len() as int));
        assert(s@.subrange(from as int, d + 1) =~= s@.subrange(from as int, d as int) + seq![r[0]]);
        d += 1;
    }
    let ghost t = s@.subrange(d as int, s@.len() as int);
    assert(text::take_while(t, |ch: char| text::is_ascii_digit(ch)) =~= Seq::<char>::empty());
    d
}

impl Nnhm7 {
    pub fn new() -> (r: Self) {
        Nnhm7
    }

    /// The request of a search or browse page. `encoded_query` is the query
    /// as the app's URI encoder encodes it; only a text search uses it.
    pub fn search_plan(
        &self,
        base: &str,
        query: &Option<String>,
        encoded_query: &str,
        page: i32,
        filters: &Vec<FilterValue>,
    ) -> (r: SearchPlan)
        ensures
            r@ == search_plan_of(base@, *query, encoded_query@, page, filters@),
    {
        let q = text::chars_or_empty(query);
        if q.len() != 0 {
            let mut url = String::from_str(base);
            url.append("/catalog.php?key=");
            url.append(encoded_query);
            return SearchPlan { url, layout: CardLayout::Grid, paginated: true, strict: true };
        }
        let b = browse_exec(filters);
        if eq_str(b.kind.as_str(), "latest") {
            let mut url = String::from_str(base);
            url.append("/update");
            SearchPlan { url, layout: CardLayout::ItemBox, paginated: false, strict: false }
        } else if eq_str(b.kind.as_str(), "ranking") {
            let mut url = String::from_str(base);
            url.append("/ranking");
            SearchPlan { url, layout: CardLayout::ItemBox, paginated: false, strict: false }
        } else {
            let mut url = String::from_str(base);
            url.append("/comics/all/");
            url.append(b.category.as_str());
            url.append("/");
            url.append(b.sort.as_str());
            url.append("/st/");
            url.append(b.status.as_str());
            url.append("/page/");
            num::push_dec_i64(&mut url, page as i64);
            SearchPlan { url, layout: CardLayout::Grid, paginated: true, strict: false }
        }
    }

    /// The result of a search or browse page from its cards and the `href`s
    /// of its anchors.
    pub fn search_result(
        &self,
        plan: &SearchPlan,
        cards: &Option<Vec<CardItem>>,
        hrefs: &Option<Vec<Option<String>>>,
        page: i32,
    ) -> (r: Result<MangaPageResult, ParseError>)
        ensures
            r is Err <==> (plan.strict && cards is None),
            r matches Err(e) ==> e == missing_cards(plan.layout),
            r matches Ok(p) ==> model::manga_views(p.entries@) == entries_of(*cards)
                && p.has_next_page == (plan.paginated && parser::links_to_next(
                parser::opt_seq(*hrefs),
                page,
            )),
    {
        let parsed = match plan.layout {
            CardLayout::Grid => parser::parse_manga_grid(cards),
            CardLayout::ItemBox => parser::parse_manga_list(cards),
        };
        let entries = match parsed {
            Ok(v) => v,
            Err(e) => {
                if plan.strict {
                    return Err(e);
                }
                Vec::new()
            },
        };
        assert(model::manga_views(entries@) =~= entries_of(*cards));
        let has_next_page = if plan.paginated {
            parser::has_next_page(hrefs, page)
        } else {
            false
        };
        Ok(MangaPageResult { entries, has_next_page })
    }

    /// The detail page URL of a manga; a manga without a key is refused.
    pub fn manga_request_url(&self, base: &str, key: &str) -> (r: Result<String, ParseError>)
        ensures
            key@.len() == 0 <==> r is Err,
            r matches Ok(u) ==> u@ == detail::manga_page_url(base@, key@),
            r matches Err(e) ==> e == ParseError::MissingMangaKey,
    {
        if key.is_empty() {
            return Err(ParseError::MissingMangaKey);
        }
        Ok(detail::manga_page_url_exec(base, key))
    }

    /// The updated manga from its detail page; a manga without a key is
    /// refused.
    pub fn get_manga_update(&self, manga: &Manga, page: &DetailPage, base: &str) -> (r: Result<
        Manga,
        ParseError,
    >)
        ensures
            manga.key@.len() == 0 <==> r is Err,
            r matches Err(e) ==> e == ParseError::MissingMangaKey,
            r matches Ok(m) ==> m@ == detail::manga_detail(manga.key@, manga.title@, *page, base@),
    {
        if manga.key.as_str().is_empty() {
            return Err(ParseError::MissingMangaKey);
        }
        Ok(detail::parse_manga_detail(manga.key.as_str(), manga.title.as_str(), page, base))
    }

    /// The URL of a chapter's page.
    pub fn chapter_request_url(
        &self,
        base: &str,
        manga_key: &str,
        chapter_key: &str,
        chapter_url: &Option<String>,
    ) -> (r: String)
        ensures
            r@ == chapter_page_url(base@, manga_key@, chapter_key@, *chapter_url),
    {
        let u = match chapter_url {
            Some(u) => u.clone(),
            None => {
                let mut p = String::from_str(base);
                p.append("/comic/");
                p.append(manga_key);
                p.append("/chapter-");
                p.append(chapter_key);
                p.append(".html");
                p
            },
        };
        detail::absolute_url_exec(u.as_str(), base)
    }

    /// The pages of a chapter from the attributes of its `img[data-index]`
    /// elements (`None` when there are none).
    pub fn get_page_list(&self, images: &Option<Vec<ImageAttrs>>) -> (r: Vec<Page>)
        ensures
            page_views(r@) == match *images {
                Some(v) => image_pages(v@),
                None => Seq::empty(),
            },
    {
        let mut r: Vec<Page> = Vec::new();
        assert(page_views(r@) =~= Seq::<model::PageView>::empty());
        let v = match images {
            None => {
                return r;
            },
            Some(v) => v,
        };
        let host = text::to_chars("nnpic.xyz");
        let mut i: usize = 0;
        assert(v@.subrange(0, 0) =~= Seq::<ImageAttrs>::empty());
        while i < v.len()
            invariant
                i <= v@.len(),
                host@ == "nnpic.xyz"@,
                page_views(r@) == image_pages(v@.subrange(0, i as int)),
            decreases v.len() - i,
        {
            assert(v@.subrange(0, i + 1).drop_last() =~= v@.subrange(0, i as int));
            assert(v@.subrange(0, i + 1).last() == v@[i as int]);
            let img = &v[i];
            let src = match &img.data_src {
                Some(d) => Some(d),
                None => match &img.src {
                    Some(s) => Some(s),
                    None => None,
                },
            };
            if let Some(s) = src {
                let sc = text::to_chars(s.as_str());
                if text::contains_exec(sc.as_slice(), host.as_slice()) {
                    let p = Page { url: s.clone(), context: None };
                    let ghost before = page_views(r@);
                    r.push(p);
                    assert(page_views(r@) =~= before.push(p@));
                }
            }
            i += 1;
        }
        assert(v@.subrange(0, v@.len() as int) =~= v@);
        r
    }

    /// The home layout from the page's `div.imgBox` sections (`None` when
    /// there are none).
    pub fn get_home(&self, sections: &Option<Vec<HomeSection>>) -> (r: Vec<HomeComponent>)
        ensures
            model::component_views(r@) == home_layout_of(*sections),
    {
        let mut r: Vec<HomeComponent> = Vec::new();
        assert(model::component_views(r@) =~= Seq::<model::HomeComponentView>::empty());
        let v = match sections {
            None => {
                return r;
            },
            Some(v) => v,
        };
        let mut i: usize = 0;
        assert(v@.subrange(0, 0) =~= Seq::<HomeSection>::empty());
        while i < v.len()
            invariant
                i <= v@.len(),
                model::component_views(r@) == home_components(v@.subrange(0, i as int)),
            decreases v.len() - i,
        {
            assert(v@.subrange(0, i + 1).drop_last() =~= v@.subrange(0, i as int));
            assert(v@.subrange(0, i + 1).last() == v@[i as int]);
            let s = &v[i];
            let entries = match &s.cards {
                Some(c) => parser::card_entries_exec(c),
                None => Vec::new(),
            };
            assert(model::manga_views(entries@) =~= entries_of(s.cards));
            if entries.len() != 0 {
                let title = match &s.title {
                    Some(t) => t.clone(),
                    None => String::new(),
                };
                let c = HomeComponent {
                    title: Some(title),
                    subtitle: None,
                    kind: HomeSectionKind::MangaList { ranking: false, page_size: 3 },
                    entries,
                };
                let ghost before = model::component_views(r@);
                r.push(c);
                assert(model::component_views(r@) =~= before.push(c@));
            }
            i += 1;
        }
        assert(v@.subrange(0, v@.len() as int) =~= v@);
        r
    }

    /// Route a deep link: `…/comic/{slug}/chapter-{n}` opens the chapter,
    /// `…/comic/{slug}.html` the manga.
    pub fn handle_deep_link(&self, url: &str) -> (r: Option<model::DeepLink>)
        ensures
            model::opt_link_view(r) == comic_link(url@),
    {
        let full = text::to_chars(url);
        let u = text::trim_chars(full.as_slice());
        let marker = text::to_chars("/comic/");
        proof {
            reveal_strlit("/comic/");
            text::lemma_find_from(u@, marker@, 0);
        }
        let n = u.len();
        let idx = match text::find_exec(u.as_slice(), marker.as_slice()) {
            None => {
                return None;
            },
            Some(i) => i,
        };
        assert(idx + 7 <= n);
        let after = text::sub_chars(u.as_slice(), idx + 7, n);
        let m = after.len();
        let chap = text::to_chars("/chapter-");
        proof {
            reveal_strlit("/chapter-");
            text::lemma_find_from(after@, chap@, 0);
        }
        if let Some(c) = text::find_exec(after.as_slice(), chap.as_slice()) {
            assert(c + 9 <= m);
            let d = digits_prefix(after.as_slice(), c + 9);
            if c > 0 && d > c + 9 {
                let slug = text::string_of(after.as_slice(), 0, c);
                let id = text::string_of(after.as_slice(), c + 9, d);
                return Some(model::DeepLink::Chapter { manga_key: slug, key: id });
            }
        }
        let html = text::to_chars(".html");
        let h = text::strip_suffix_chars(after.as_slice(), html.as_slice());
        let slash = ['/'];
        proof {
            reveal_strlit("/");
            assert(slash@ =~= "/"@);
        }
        let t = text::strip_suffix_chars(h.as_slice(), &slash);
        let slug = text::string_of(t.as_slice(), 0, t.len());
        assert(t@.subrange(0, t@.len() as int) =~= t@);
        if slug.as_str().is_empty() {
            None
        } else {
            Some(model::DeepLink::Manga { key: slug })
        }
    }
}

/// A text search goes to the catalogue search whatever the filters and the
/// page: a non-empty query alone decides the request.
pub proof fn law_text_search_ignores_filters(
    base: Seq<char>,
    query: Option<String>,
    encoded_query: Seq<char>,
    page1: i32,
    page2: i32,
    filters1: Seq<FilterValue>,
    filters2: Seq<FilterValue>,
)
    requires
        text::or_empty(query).len() != 0,
    ensures
        search_plan_of(base, query, encoded_query, page1, filters1) == search_plan_of(
            base,
            query,
            encoded_query,
            page2,
            filters2,
        ),
{
}

/// The `kind` filter picks the browse surface; the single-page surfaces
/// (`latest`, `ranking`) ignore the category, status and sort filters and
/// the page.
pub proof fn law_single_page_surfaces_ignore_other_filters(
    base: Seq<char>,
    encoded_query: Seq<char>,
    page1: i32,
    page2: i32,
    filters1: Seq<FilterValue>,
    filters2: Seq<FilterValue>,
)
    requires
        browse_settings(filters1).kind == browse_settings(filters2).kind,
        browse_settings(filters1).kind == "latest"@ || browse_settings(filters1).kind
            == "ranking"@,
    ensures
        search_plan_of(base, None, encoded_query, page1, filters1) == search_plan_of(
            base,
            None,
            encoded_query,
            page2,
            filters2,
        ),
        !search_plan_of(base, None, encoded_query, page1, filters1).paginated,
{
}

/// Browsing with one of the status filter's options (and no other filter)
/// requests the catalogue at that status: 全部, 连载中 and 已完绝 go to
/// `/comics/all/all/time/st/全部`, `…/st/连载中` and `…/st/已完绝` (the
/// site's completed listing), followed by `/page/{page}`.
pub proof fn law_status_filter_browse(
    base: Seq<char>,
    encoded_query: Seq<char>,
    page: i32,
    id: String,
    value: String,
    j: int,
)
    requires
        0 <= j < 3,
        id@ == "status"@,
        value@ == filters::filter_options(filters::spec_filters()[2])[j],
    ensures
        search_plan_of(base, None, encoded_query, page, seq![FilterValue::Select { id, value }]).url
            == base + "/comics/all/all/time/st/"@ + seq!["全部"@, "连载中"@, "已完绝"@][j]
            + "/page/"@ + num::dec_int(page as int),
{
    reveal_strlit("status");
    reveal_strlit("kind");
    reveal_strlit("category");
    let f = seq![FilterValue::Select { id, value }];
    assert(f.drop_last() =~= Seq::<FilterValue>::empty());
    assert(f.last() == FilterValue::Select { id, value });
    assert(browse_settings(f.drop_last()) == default_browse());
    let b = browse_settings(f);
    assert(f.len() == 1);
    assert(b == apply_filter(default_browse(), FilterValue::Select { id, value }));
    assert("status"@.len() == 6);
    assert("kind"@.len() == 4);
    assert("category"@.len() == 8);
    assert(id@ != "kind"@);
    assert(id@ != "category"@);
    assert(b == BrowseView { kind: "all"@, category: "all"@, status: value@, sort: "time"@ });
    reveal_strlit("all");
    reveal_strlit("latest");
    reveal_strlit("ranking");
    assert(b.kind != "latest"@);
    assert(b.kind != "ranking"@);
    assert(value@ == seq!["全部"@, "连载中"@, "已完绝"@][j]);
    reveal_strlit("/comics/all/");
    reveal_strlit("/");
    reveal_strlit("time");
    reveal_strlit("/st/");
    reveal_strlit("/comics/all/all/time/st/");
    let lit = "/comics/all/"@ + "all"@ + "/"@ + "time"@ + "/st/"@;
    assert(lit =~= "/comics/all/all/time/st/"@);
    assert(base + "/comics/all/"@ + "all"@ + "/"@ + "time"@ + "/st/"@ + value@ + "/page/"@
        + num::dec_int(page as int) =~= base + "/comics/all/all/time/st/"@ + value@ + "/page/"@
        + num::dec_int(page as int));
}

/// Every page of a chapter is an image on the `nnpic.xyz` host.
pub proof fn law_pages_on_image_host(imgs: Seq<ImageAttrs>)
    ensures
        forall|i: int|
            0 <= i < image_pages(imgs).len() ==> text::spec_contains(
                #[trigger] image_pages(imgs)[i].url,
                "nnpic.xyz"@,
            ),
    decreases imgs.len(),
{
    if imgs.len() > 0 {
        law_pages_on_image_host(imgs.drop_last());
        let prev = image_pages(imgs.drop_last());
        assert forall|i: int|
            0 <= i < image_pages(imgs).len() implies text::spec_contains(
                #[trigger] image_pages(imgs)[i].url,
                "nnpic.xyz"@,
            ) by {
            if i < prev.len() {
                assert(image_pages(imgs)[i] == prev[i]);
            }
        }
    }
}

/// A manga's detail URL is a `/comic/` link whose slug is the manga's key,
/// for a non-empty key that does not end with `/`, on a base that has no
/// `/comic/` of its own.
pub proof fn law_detail_url_slug(base: Seq<char>, key: Seq<char>)
    requires
        text::spec_find(base + "/comic/"@, "/comic/"@) == Some(base.len() as int),
        key.len() > 0,
        !text::spec_ends_with(key, "/"@),
    ensures
        parser::slug_of(detail::manga_page_url(base, key)) == Some(key),
{
    reveal_strlit("/comic/");
    reveal_strlit(".html");
    reveal_strlit("/");
    let url = detail::manga_page_url(base, key);
    let tail = key + ".html"@;
    assert(url =~= (base + "/comic/"@) + tail);
    text::lemma_find_extend(base + "/comic/"@, tail, "/comic/"@, base.len() as int);
    let rest = url.subrange(base.len() + 7int, url.len() as int);
    assert(rest =~= tail);
    assert(tail.subrange(tail.len() - 5, tail.len() as int) =~= ".html"@);
    assert(text::spec_ends_with(tail, ".html"@));
    assert(text::strip_suffix(tail, ".html"@) =~= key);
}

/// A chapter's page URL leads back to the chapter: the deep link of
/// `{base}/comic/{slug}/chapter-{id}.html` opens chapter `id` of `slug`,
/// for a non-empty slug without `/chapter-` and a non-empty run of digits
/// `id`, on an `http` base that has no `/comic/` of its own.
pub proof fn law_chapter_link_round_trip(base: Seq<char>, slug: Seq<char>, id: Seq<char>)
    requires
        text::spec_starts_with(base, "http"@),
        text::spec_find(base + "/comic/"@, "/comic/"@) == Some(base.len() as int),
        slug.len() > 0,
        text::spec_find(slug + "/chapter-"@, "/chapter-"@) == Some(slug.len() as int),
        id.len() > 0,
        forall|i: int| 0 <= i < id.len() ==> text::is_ascii_digit(#[trigger] id[i]),
    ensures
        comic_link(chapter_page_url(base, slug, id, None)) == Some(
            model::DeepLinkView::Chapter(slug, id),
        ),
{
    reveal_strlit("/comic/");
    reveal_strlit("/chapter-");
    reveal_strlit(".html");
    reveal_strlit("http");
    let u = base + "/comic/"@ + slug + "/chapter-"@ + id + ".html"@;
    assert(u.subrange(0, 4) =~= base.subrange(0, 4));
    assert(text::spec_starts_with(u, "http"@));
    assert(chapter_page_url(base, slug, id, None) == u);
    assert(u[0] == base[0]);
    assert(base.subrange(0, 4) == "http"@);
    assert(base.subrange(0, 4)[0] == base[0]);
    assert(base[0] == 'h');
    assert(u.last() == 'l');
    text::lemma_trim_noop(u);
    let tail = slug + "/chapter-"@ + id + ".html"@;
    assert(u =~= (base + "/comic/"@) + tail);
    text::lemma_find_extend(base + "/comic/"@, tail, "/comic/"@, base.len() as int);
    let after = u.subrange(base.len() + 7int, u.len() as int);
    assert(after =~= tail);
    assert(tail =~= (slug + "/chapter-"@) + (id + ".html"@));
    text::lemma_find_extend(slug + "/chapter-"@, id + ".html"@, "/chapter-"@, slug.len() as int);
    assert(after.subrange(0, slug.len() as int) =~= slug);
    let rest = after.subrange(slug.len() + 9int, after.len() as int);
    assert(rest =~= id + ".html"@);
    text::lemma_take_while_prefix(id, ".html"@, |ch: char| text::is_ascii_digit(ch));
    assert(text::take_while(".html"@, |ch: char| text::is_ascii_digit(ch)) =~= Seq::<
        char,
    >::empty());
    assert(id + Seq::<char>::empty() =~= id);
}

/// A manga's detail URL leads back to the manga: the deep link of
/// `{base}/comic/{key}.html` opens `key`, for a non-empty key without `/`,
/// on an `http` base that has no `/comic/` of its own.
pub proof fn law_manga_link_round_trip(base: Seq<char>, key: Seq<char>)
    requires
        text::spec_starts_with(base, "http"@),
        text::spec_find(base + "/comic/"@, "/comic/"@) == Some(base.len() as int),
        key.len() > 0,
        forall|i: int| 0 <= i < key.len() ==> #[trigger] key[i] != '/',
    ensures
        comic_link(detail::manga_page_url(base, key)) == Some(model::DeepLinkView::Manga(key)),
{
    reveal_strlit("/comic/");
    reveal_strlit("/chapter-");
    reveal_strlit(".html");
    reveal_strlit("http");
    reveal_strlit("/");
    let u = detail::manga_page_url(base, key);
    assert(base.subrange(0, 4) == "http"@);
    assert(base.subrange(0, 4)[0] == base[0]);
    assert(u[0] == base[0]);
    assert(u.last() == 'l');
    text::lemma_trim_noop(u);
    let tail = key + ".html"@;
    assert(u =~= (base + "/comic/"@) + tail);
    text::lemma_find_extend(base + "/comic/"@, tail, "/comic/"@, base.len() as int);
    let after = u.subrange(base.len() + 7int, u.len() as int);
    assert(after =~= tail);
    assert forall|j: int| 0 <= j implies !text::matches_at(after, "/chapter-"@, j) by {
        if text::matches_at(after, "/chapter-"@, j) {
            assert(after.subrange(j, j + 9)[0] == '/');
            assert(after[j] == '/');
            if j < key.len() {
                assert(after[j] == key[j]);
            }
        }
    }
    text::lemma_find_none(after, "/chapter-"@);
    assert(tail.subrange(tail.len() - 5, tail.len() as int) =~= ".html"@);
    assert(text::strip_suffix(tail, ".html"@) =~= key);
    assert(key.subrange(key.len() - 1, key.len() as int)[0] == key[key.len() - 1]);
    assert(!text::spec_ends_with(key, "/"@));
}

} // verus!
