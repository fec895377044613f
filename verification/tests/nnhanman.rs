use aidoku_sources::model::{ContentRating, DeepLink, HomeSectionKind, Manga, MangaStatus, Viewer};
use aidoku_sources::nnhanman::detail::{clean_title_exec, parse_manga_detail, ChapterLink, DetailPage};
use aidoku_sources::nnhanman::filters::{dynamic_filters, FilterSpec};
use aidoku_sources::nnhanman::parser::{
    has_next_page, parse_manga_grid, parse_manga_list, slug_from_url, CardItem, ParseError,
};
use aidoku_sources::nnhanman::source_url::{get_base_url, BASE_URL};
use aidoku_sources::nnhanman::{CardLayout, FilterValue, HomeSection, ImageAttrs};
use aidoku_sources::Nnhm7;

fn s(x: &str) -> String {
    String::from(x)
}

fn item(href: Option<&str>, title: Option<&str>, alt: Option<&str>) -> CardItem {
    CardItem { href: href.map(s), title: title.map(s), alt_title: alt.map(s), cover: Some(s("https://img/c.jpg")) }
}

fn select(id: &str, value: &str) -> FilterValue {
    FilterValue::Select { id: s(id), value: s(value) }
}

fn manga(key: &str, title: &str) -> Manga {
    Manga {
        key: s(key),
        title: s(title),
        cover: None,
        authors: None,
        description: None,
        url: None,
        tags: None,
        status: MangaStatus::Unknown,
        content_rating: ContentRating::Unknown,
        viewer: Viewer::Unknown,
        chapters: None,
    }
}

fn detail_page(tags: &[&str]) -> DetailPage {
    DetailPage {
        cover: Some(s("https://img/cover.jpg")),
        heading: Some(s("《我的漫畫》 ")),
        author: Some(s("  作者名 ")),
        tags: Some(tags.iter().map(|t| Some(s(t))).collect()),
        status: Some(s("已完绝")),
        description: Some(s("介绍: 故事 ")),
        chapters: Some(vec![
            Some(ChapterLink {
                href: Some(s("/comic/wo/chapter-1.html")),
                span_text: Some(s("第1话")),
                text: Some(s("第1话 new")),
            }),
            None,
            Some(ChapterLink { href: Some(s("https://nnhm7.com/comic/wo/2")), span_text: None, text: None }),
        ]),
    }
}

#[test]
fn get_base_url_defaults_to_const_when_no_override() {
    assert_eq!(get_base_url(None, None), BASE_URL);
    assert_eq!(get_base_url(Some(s(" ")), Some(s(""))), "https://nnhm7.com");
}

#[test]
fn get_base_url_prefers_custom_address() {
    assert_eq!(get_base_url(Some(s("https://a.example")), Some(s("https://b.example"))), "https://a.example");
    assert_eq!(get_base_url(Some(s("")), Some(s("https://b.example"))), "https://b.example");
}

#[test]
fn slug_from_url_strips_html_and_slash() {
    assert_eq!(slug_from_url("https://nnhm7.com/comic/wo-de.html").as_deref(), Some("wo-de"));
    assert_eq!(slug_from_url("/comic/wo-de/").as_deref(), Some("wo-de"));
    assert_eq!(slug_from_url("/comic/wo-de.html/").as_deref(), Some("wo-de.html"));
    assert_eq!(slug_from_url("/comic/.html"), None);
    assert_eq!(slug_from_url("/comics/all"), None);
}

#[test]
fn parse_manga_grid_reads_cards() {
    let items = Some(vec![
        item(Some("/comic/a.html"), Some("A"), Some("alt")),
        item(Some("/comic/b.html"), None, Some("B alt")),
        item(Some("/comic/c.html"), None, None),
        item(Some("/other/d.html"), Some("D"), None),
        item(None, Some("E"), None),
    ]);
    let entries = parse_manga_grid(&items).unwrap();
    assert_eq!(entries.len(), 3);
    assert_eq!(entries[0].key, "a");
    assert_eq!(entries[0].title, "A");
    assert_eq!(entries[0].cover.as_deref(), Some("https://img/c.jpg"));
    assert_eq!(entries[1].title, "B alt");
    assert_eq!(entries[2].title, "");
    assert!(entries[0].url.is_none());
}

#[test]
fn parse_manga_grid_and_list_report_missing_cards() {
    assert_eq!(parse_manga_grid(&None).err(), Some(ParseError::NoListItems));
    assert_eq!(parse_manga_list(&None).err(), Some(ParseError::NoItems));
    assert_eq!(parse_manga_list(&Some(Vec::new())).unwrap().len(), 0);
}

#[test]
fn has_next_page_looks_at_anchor_targets() {
    let hrefs = Some(vec![None, Some(s("/comics/all/ob/time/st/all/page/2")), Some(s("/x"))]);
    assert!(has_next_page(&hrefs, 1));
    assert!(!has_next_page(&hrefs, 2));
    assert!(!has_next_page(&None, 1));
    let ten = Some(vec![Some(s("/comics/all/page/10"))]);
    assert!(has_next_page(&ten, 9));
    assert!(has_next_page(&ten, 0), "`/page/1` is a prefix of `/page/10`");
}

#[test]
fn text_search_uses_catalog_endpoint() {
    let src = Nnhm7::new();
    let plan = src.search_plan(BASE_URL, &Some(s("妻子")), "%E5%A6%BB%E5%AD%90", 3, &vec![select("kind", "latest")]);
    assert_eq!(plan.url, "https://nnhm7.com/catalog.php?key=%E5%A6%BB%E5%AD%90");
    assert_eq!(plan.layout, CardLayout::Grid);
    assert!(plan.paginated && plan.strict);
}

#[test]
fn browse_defaults_to_paginated_catalogue() {
    let src = Nnhm7::new();
    let plan = src.search_plan(BASE_URL, &None, "", 2, &Vec::new());
    assert_eq!(plan.url, "https://nnhm7.com/comics/all/all/time/st/all/page/2");
    assert!(plan.paginated && !plan.strict);
    let plan = src.search_plan(BASE_URL, &Some(s("")), "", 1, &Vec::new());
    assert_eq!(plan.url, "https://nnhm7.com/comics/all/all/time/st/all/page/1");
}

#[test]
fn browse_filters_fill_the_catalogue_path() {
    let src = Nnhm7::new();
    let filters = vec![
        select("category", "巨乳"),
        select("status", "连载中"),
        FilterValue::Sort { id: s("sort"), index: 1, ascending: false },
        select("unknown", "x"),
        FilterValue::Other,
    ];
    let plan = src.search_plan(BASE_URL, &None, "", 4, &filters);
    assert_eq!(plan.url, "https://nnhm7.com/comics/all/巨乳/hits/st/连载中/page/4");
    let later = vec![FilterValue::Sort { id: s("sort"), index: 1, ascending: false }, FilterValue::Sort { id: s("sort"), index: 7, ascending: true }];
    assert_eq!(src.search_plan(BASE_URL, &None, "", -1, &later).url, "https://nnhm7.com/comics/all/all/time/st/all/page/-1");
}

#[test]
fn kind_filter_picks_single_page_surfaces() {
    let src = Nnhm7::new();
    let latest = src.search_plan(BASE_URL, &None, "", 5, &vec![select("category", "x"), select("kind", "latest")]);
    assert_eq!(latest.url, "https://nnhm7.com/update");
    assert_eq!(latest.layout, CardLayout::ItemBox);
    assert!(!latest.paginated);
    let ranking = src.search_plan(BASE_URL, &None, "", 5, &vec![select("kind", "ranking")]);
    assert_eq!(ranking.url, "https://nnhm7.com/ranking");
}

#[test]
fn search_result_propagates_missing_grid_only_for_text_search() {
    let src = Nnhm7::new();
    let strict = src.search_plan(BASE_URL, &Some(s("q")), "q", 1, &Vec::new());
    assert_eq!(src.search_result(&strict, &None, &None, 1).err(), Some(ParseError::NoListItems));
    let browse = src.search_plan(BASE_URL, &None, "", 1, &Vec::new());
    let r = src.search_result(&browse, &None, &Some(vec![Some(s("/page/2"))]), 1).ok().unwrap();
    assert!(r.entries.is_empty());
    assert!(r.has_next_page);
}

#[test]
fn search_result_single_page_has_no_next() {
    let src = Nnhm7::new();
    let plan = src.search_plan(BASE_URL, &None, "", 1, &vec![select("kind", "ranking")]);
    let cards = Some(vec![item(Some("/comic/a.html"), None, Some("A"))]);
    let r = src.search_result(&plan, &cards, &Some(vec![Some(s("/page/2"))]), 1).ok().unwrap();
    assert_eq!(r.entries.len(), 1);
    assert_eq!(r.entries[0].title, "A");
    assert!(!r.has_next_page);
}

#[test]
fn manga_request_url_refuses_missing_key() {
    let src = Nnhm7::new();
    assert_eq!(src.manga_request_url(BASE_URL, "").err(), Some(ParseError::MissingMangaKey));
    assert_eq!(src.manga_request_url(BASE_URL, "wo").ok().as_deref(), Some("https://nnhm7.com/comic/wo.html"));
}

#[test]
fn manga_url_is_absolute() {
    let src = Nnhm7::new();
    let m = src.get_manga_update(&manga("wo-de-i-n-yuan-tuan", ""), &detail_page(&[]), BASE_URL).ok().unwrap();
    let url = m.url.expect("manga url should be set");
    assert!(url.starts_with("https://"));
    assert!(url.contains("/comic/"));
    assert_eq!(url, "https://nnhm7.com/comic/wo-de-i-n-yuan-tuan.html");
}

#[test]
fn chapter_url_is_absolute() {
    let src = Nnhm7::new();
    let m = src.get_manga_update(&manga("wo", ""), &detail_page(&[]), BASE_URL).ok().unwrap();
    let chs = m.chapters.expect("chapters");
    assert_eq!(chs.len(), 2);
    let url = chs[0].url.as_deref().expect("chapter url set");
    assert_eq!(url, "https://nnhm7.com/comic/wo/chapter-1.html");
    assert!(url.contains("/chapter-"));
    assert_eq!(chs[0].key, "chapter-1");
    assert_eq!(chs[0].title.as_deref(), Some("第1话"));
    assert_eq!(chs[1].url.as_deref(), Some("https://nnhm7.com/comic/wo/2"));
    assert_eq!(chs[1].key, "", "a link without `.html` has no key");
    assert_eq!(chs[1].title.as_deref(), Some(""));
}

#[test]
fn viewer_is_webtoon_for_plain_webtoon() {
    let m = parse_manga_detail("wo", "", &detail_page(&["恋爱", " 巨乳 "]), BASE_URL);
    assert_eq!(m.viewer, Viewer::Webtoon);
}

#[test]
fn viewer_is_right_to_left_for_3d_manga() {
    let m = parse_manga_detail("3d", "", &detail_page(&["3D"]), BASE_URL);
    assert_eq!(m.viewer, Viewer::RightToLeft);
}

#[test]
fn viewer_is_right_to_left_for_published_manga() {
    let m = parse_manga_detail("p", "", &detail_page(&["  出版漫画 "]), BASE_URL);
    assert_eq!(m.viewer, Viewer::RightToLeft);
    let jp = parse_manga_detail("j", "", &detail_page(&["日漫"]), BASE_URL);
    assert_eq!(jp.viewer, Viewer::RightToLeft);
}

#[test]
fn detail_fields_are_cleaned() {
    let m = parse_manga_detail("wo", "fallback", &detail_page(&["恋爱", " ", "同居"]), BASE_URL);
    assert_eq!(m.title, "我的漫畫");
    assert_eq!(m.authors, Some(vec![s("作者名")]));
    assert_eq!(m.tags, Some(vec![s("恋爱"), s("同居")]));
    assert_eq!(m.status, MangaStatus::Completed);
    assert_eq!(m.description.as_deref(), Some("故事"));
    assert_eq!(m.content_rating, ContentRating::NSFW);
    assert_eq!(m.cover.as_deref(), Some("https://img/cover.jpg"));
}

#[test]
fn detail_without_heading_uses_stored_title() {
    let mut page = detail_page(&[]);
    page.heading = None;
    page.status = Some(s("連載中"));
    page.description = Some(s("没有标签"));
    page.tags = None;
    page.chapters = None;
    let m = parse_manga_detail("wo", " 《旧标题》", &page, BASE_URL);
    assert_eq!(m.title, "旧标题");
    assert_eq!(m.status, MangaStatus::Ongoing);
    assert_eq!(m.description.as_deref(), Some("没有标签"));
    assert_eq!(m.tags, Some(Vec::new()));
    assert_eq!(m.chapters.map(|c| c.len()), Some(0));
    assert_eq!(m.viewer, Viewer::Webtoon);
}

#[test]
fn completed_status_also_reads_traditional_form() {
    let mut page = detail_page(&[]);
    page.status = Some(s("狀態：完結"));
    assert_eq!(parse_manga_detail("k", "", &page, BASE_URL).status, MangaStatus::Completed);
    page.status = None;
    assert_eq!(parse_manga_detail("k", "", &page, BASE_URL).status, MangaStatus::Ongoing);
}

#[test]
fn clean_title_trims_brackets_and_spaces_only() {
    assert_eq!(clean_title_exec(" 《 標題 》 "), "標題");
    assert_eq!(clean_title_exec("\t標題"), "\t標題");
    assert_eq!(clean_title_exec("《》"), "");
}

#[test]
fn get_manga_update_refuses_missing_key() {
    let src = Nnhm7::new();
    assert_eq!(src.get_manga_update(&manga("", "t"), &detail_page(&[]), BASE_URL).err(), Some(ParseError::MissingMangaKey));
}

#[test]
fn page_list_returns_nnpic_image_urls() {
    let src = Nnhm7::new();
    let images = Some(vec![
        ImageAttrs { data_src: Some(s("https://a.nnpic.xyz/1.jpg")), src: Some(s("https://x/loading.gif")) },
        ImageAttrs { data_src: None, src: Some(s("https://b.nnpic.xyz/2.jpg")) },
        ImageAttrs { data_src: Some(s("https://ads/3.jpg")), src: Some(s("https://c.nnpic.xyz/3.jpg")) },
        ImageAttrs { data_src: None, src: None },
    ]);
    let pages = src.get_page_list(&images);
    assert_eq!(pages.len(), 2);
    assert_eq!(pages[0].url, "https://a.nnpic.xyz/1.jpg");
    assert_eq!(pages[1].url, "https://b.nnpic.xyz/2.jpg");
    assert!(pages.iter().all(|p| p.context.is_none() && p.url.contains("nnpic.xyz")));
    assert!(src.get_page_list(&None).is_empty());
}

#[test]
fn chapter_request_url_builds_and_resolves() {
    let src = Nnhm7::new();
    assert_eq!(src.chapter_request_url(BASE_URL, "wo", "3", &None), "https://nnhm7.com/comic/wo/chapter-3.html");
    assert_eq!(src.chapter_request_url(BASE_URL, "wo", "3", &Some(s("/comic/wo/chapter-9.html"))), "https://nnhm7.com/comic/wo/chapter-9.html");
    assert_eq!(src.chapter_request_url(BASE_URL, "wo", "3", &Some(s("https://m/x"))), "https://m/x");
}

#[test]
fn home_lists_sections_with_entries() {
    let src = Nnhm7::new();
    let sections = Some(vec![
        HomeSection { title: Some(s("热门")), cards: Some(vec![item(Some("/comic/a.html"), Some("A"), None)]) },
        HomeSection { title: Some(s("空")), cards: Some(vec![item(Some("/x"), Some("X"), None)]) },
        HomeSection { title: None, cards: Some(vec![item(Some("/comic/b/"), None, Some("B"))]) },
        HomeSection { title: Some(s("无")), cards: None },
    ]);
    let layout = src.get_home(&sections);
    assert_eq!(layout.len(), 2);
    assert_eq!(layout[0].title.as_deref(), Some("热门"));
    assert_eq!(layout[0].kind, HomeSectionKind::MangaList { ranking: false, page_size: 3 });
    assert!(layout[0].subtitle.is_none());
    assert_eq!(layout[0].entries[0].key, "a");
    assert_eq!(layout[1].title.as_deref(), Some(""));
    assert_eq!(layout[1].entries[0].key, "b");
    assert!(src.get_home(&None).is_empty());
}

#[test]
fn deep_link_opens_chapters_and_manga() {
    let src = Nnhm7::new();
    match src.handle_deep_link(" https://nnhm7.com/comic/wo-de/chapter-12.html ") {
        Some(DeepLink::Chapter { manga_key, key }) => {
            assert_eq!(manga_key, "wo-de");
            assert_eq!(key, "12");
        }
        _ => panic!("expected a chapter link"),
    }
    match src.handle_deep_link("https://nnhm7.com/comic/wo-de/") {
        Some(DeepLink::Manga { key }) => assert_eq!(key, "wo-de"),
        _ => panic!("expected a manga link"),
    }
    match src.handle_deep_link("https://nnhm7.com/comic/wo-de.html/") {
        Some(DeepLink::Manga { key }) => assert_eq!(key, "wo-de.html"),
        _ => panic!("expected a manga link"),
    }
    match src.handle_deep_link("https://nnhm7.com/comic/wo-de.html") {
        Some(DeepLink::Manga { key }) => assert_eq!(key, "wo-de"),
        _ => panic!("expected a manga link"),
    }
    match src.handle_deep_link("https://nnhm7.com/comic/wo-de/chapter-x.html") {
        Some(DeepLink::Manga { key }) => assert_eq!(key, "wo-de/chapter-x"),
        _ => panic!("a chapter link without digits opens the manga"),
    }
    assert!(src.handle_deep_link("https://nnhm7.com/comic/").is_none());
    assert!(src.handle_deep_link("https://nnhm7.com/comics/all").is_none());
}

#[test]
fn nnhanman_chapter_url_round_trips_through_deep_link() {
    let src = Nnhm7::new();
    let url = src.chapter_request_url(BASE_URL, "wo-de", "7", &None);
    match src.handle_deep_link(&url) {
        Some(DeepLink::Chapter { manga_key, key }) => {
            assert_eq!(manga_key, "wo-de");
            assert_eq!(key, "7");
        }
        _ => panic!("expected a chapter link"),
    }
}

#[test]
fn dynamic_filters_describe_the_browse_surfaces() {
    let filters = dynamic_filters();
    assert_eq!(filters.len(), 4);
    match &filters[0] {
        FilterSpec::Select { id, options, ids, default, .. } => {
            assert_eq!(id, "kind");
            assert_eq!(options.len(), 3);
            assert_eq!(ids, &Some(vec![s("all"), s("latest"), s("ranking")]));
            assert_eq!(default.as_deref(), Some("all"));
        }
        _ => panic!("first filter must be the kind selector"),
    }
    match &filters[1] {
        FilterSpec::Select { id, options, ids, .. } => {
            assert_eq!(id, "category");
            assert_eq!(options.len(), 21);
            assert_eq!(options[0], "全部");
            assert_eq!(options[20], "日漫");
            assert!(ids.is_none());
        }
        _ => panic!("second filter must be the category selector"),
    }
    match &filters[3] {
        FilterSpec::Sort { id, can_ascend, options, .. } => {
            assert_eq!(id, "sort");
            assert!(!can_ascend);
            assert_eq!(options, &vec![s("按时间"), s("按热度")]);
        }
        _ => panic!("last filter must be the sort order"),
    }
}

#[test]
fn detail_url_slug_is_the_key() {
    let src = Nnhm7::new();
    let url = src.manga_request_url(BASE_URL, "wo-de-i-n-yuan-tuan").ok().unwrap();
    assert_eq!(slug_from_url(&url).as_deref(), Some("wo-de-i-n-yuan-tuan"));
}

#[test]
fn detail_url_round_trips_through_deep_link() {
    let src = Nnhm7::new();
    let url = src.manga_request_url(BASE_URL, "abc").ok().unwrap();
    match src.handle_deep_link(&url) {
        Some(DeepLink::Manga { key }) => assert_eq!(key, "abc"),
        _ => panic!("expected a manga link"),
    }
}
