use aidoku_sources::model::{DeepLink, HomeSectionKind, MangaStatus, Viewer};
use aidoku_sources::roumanwu::home::{
    find_title_element, home_sections, parse_home_layout, FoundSection,
};
use aidoku_sources::roumanwu::listing::{
    extract_manga_cards, has_next_page_from_html, parse_manga_listing, CardAnchor, LinkAnchor,
};
use aidoku_sources::roumanwu::source_url::{dynamic_settings, get_base_url, SettingSpec, BASE_URL};
use aidoku_sources::roumanwu::SourceError;
use aidoku_sources::Roumanwu;

fn s(x: &str) -> String {
    String::from(x)
}

/// A card as the site renders it: a title line, nothing else.
fn card(href: &str, title: &str) -> CardAnchor {
    CardAnchor {
        href: Some(s(href)),
        title_text: Some(s(title)),
        cover_style: None,
        muted_lines: Vec::new(),
        h3_title_attr: None,
        h3_text: None,
        cover: None,
        latest: None,
        meta_spans: None,
    }
}

/// A card in the `h3` / `site-comic-*` markup.
fn h3_card(href: &str, title: &str) -> CardAnchor {
    CardAnchor {
        href: Some(s(href)),
        title_text: None,
        cover_style: None,
        muted_lines: Vec::new(),
        h3_title_attr: Some(s(title)),
        h3_text: None,
        cover: Some(s("https://x/c.jpg")),
        latest: None,
        meta_spans: None,
    }
}

fn link(href: Option<&str>, text: Option<&str>) -> LinkAnchor {
    LinkAnchor { href: href.map(s), text: text.map(s) }
}

#[test]
fn custom_base_url_setting_takes_priority() {
    assert_eq!(
        get_base_url(Some(s("https://roum99.example")), Some(s("https://roum28.xyz"))),
        "https://roum99.example"
    );
    assert_eq!(get_base_url(Some(s("")), Some(s("https://roum28.xyz"))), "https://roum28.xyz");
    assert_eq!(get_base_url(Some(s("   ")), None), BASE_URL);
    assert_eq!(get_base_url(None, Some(s(""))), BASE_URL);
    assert_eq!(get_base_url(None, None), "https://rouman5.com");
}

#[test]
fn deep_link_dispatch() {
    let src = Roumanwu::new();
    match src.handle_deep_link("https://rouman5.com/books/cm4sx1zpa000avnl0ziqnbfy5") {
        Some(DeepLink::Manga { key }) => assert_eq!(key, "cm4sx1zpa000avnl0ziqnbfy5"),
        _ => panic!("expected a manga link"),
    }
    match src.handle_deep_link("https://rouman5.com/books/cm4sx1zpa000avnl0ziqnbfy5/0") {
        Some(DeepLink::Chapter { manga_key, key }) => {
            assert_eq!(manga_key, "cm4sx1zpa000avnl0ziqnbfy5");
            assert_eq!(key, "0");
        }
        _ => panic!("expected a chapter link"),
    }
    assert!(src.handle_deep_link("https://example.com/foo").is_none());
}

#[test]
fn deep_link_edge_cases() {
    let src = Roumanwu::new();
    match src.handle_deep_link("  https://rouman5.com/books/abc?x=1  ") {
        Some(DeepLink::Manga { key }) => assert_eq!(key, "abc"),
        _ => panic!("expected a manga link"),
    }
    match src.handle_deep_link("https://rouman5.com/books/abc/+07") {
        Some(DeepLink::Manga { key }) => assert_eq!(key, "abc"),
        _ => panic!("a non-digit chapter segment opens the manga"),
    }
    match src.handle_deep_link("https://rouman5.com/books/abc/0012x") {
        Some(DeepLink::Chapter { key, .. }) => assert_eq!(key, "12"),
        _ => panic!("expected a chapter link"),
    }
    match src.handle_deep_link("https://rouman5.com/books/abc/99999999999") {
        Some(DeepLink::Manga { key }) => assert_eq!(key, "abc"),
        _ => panic!("an out-of-range chapter opens the manga"),
    }
    assert!(src.handle_deep_link("https://rouman5.com/books/").is_none());
    assert!(src.handle_deep_link("https://rouman5.com/books//1").is_none());
}

#[test]
fn chapter_page_url_round_trips_through_deep_link() {
    let src = Roumanwu::new();
    let url = src.chapter_request_url("https://rouman5.com", "abc", "7", &None);
    assert_eq!(url, "https://rouman5.com/books/abc/7");
    match src.handle_deep_link(&url) {
        Some(DeepLink::Chapter { manga_key, key }) => {
            assert_eq!(manga_key, "abc");
            assert_eq!(key, "7");
        }
        _ => panic!("expected a chapter link"),
    }
    let own = src.chapter_request_url("https://rouman5.com", "abc", "7", &Some(s("/books/abc/9")));
    assert_eq!(own, "https://rouman5.com/books/abc/9");
    let abs = src.chapter_request_url("https://rouman5.com", "abc", "7", &Some(s("https://m/x")));
    assert_eq!(abs, "https://m/x");
}

#[test]
fn manga_url_round_trips_through_deep_link() {
    let src = Roumanwu::new();
    let url = src.manga_url("https://rouman5.com", "abc").unwrap();
    assert_eq!(url, "https://rouman5.com/books/abc");
    match src.handle_deep_link(&url) {
        Some(DeepLink::Manga { key }) => assert_eq!(key, "abc"),
        _ => panic!("expected a manga link"),
    }
}

#[test]
fn manga_url_refuses_missing_key() {
    let src = Roumanwu::new();
    assert_eq!(src.manga_url("https://rouman5.com", "").unwrap_err(), SourceError::MissingMangaKey);
}

#[test]
fn search_url_encodes_query_and_uses_site_page() {
    let src = Roumanwu::new();
    assert_eq!(
        src.search_url("https://rouman5.com", &Some(s("妻 a")), 2),
        "https://rouman5.com/search?term=%E5%A6%BB%20a&page=1"
    );
    assert_eq!(src.search_url("https://rouman5.com", &Some(s("  ")), 1), "https://rouman5.com/books?page=0");
    assert_eq!(src.search_url("https://rouman5.com", &None, 0), "https://rouman5.com/books?page=0");
}

#[test]
fn listing_url_maps_listing_ids() {
    let src = Roumanwu::new();
    assert_eq!(
        src.listing_url("https://rouman5.com", "ongoing", 1),
        "https://rouman5.com/books?continued=true&page=0"
    );
    assert_eq!(
        src.listing_url("https://rouman5.com", "completed", 3),
        "https://rouman5.com/books?continued=false&page=2"
    );
    assert_eq!(
        src.listing_url("https://rouman5.com", "all", 1),
        "https://rouman5.com/books?continued=&page=0"
    );
}

#[test]
fn home_url_appends_home() {
    assert_eq!(Roumanwu::new().home_url("https://rouman5.com"), "https://rouman5.com/home");
}

#[test]
fn extract_manga_cards_returns_empty_for_no_anchors() {
    assert!(extract_manga_cards(&Vec::new(), BASE_URL).is_empty());
}

#[test]
fn extract_manga_cards_returns_manga_for_valid_anchor() {
    let mut c = card("/books/abc123", "Title A");
    c.cover_style = Some(s("background-image:url(&quot;https://x/c.jpg&quot;)"));
    let cards = extract_manga_cards(&vec![c], BASE_URL);
    assert_eq!(cards.len(), 1);
    assert_eq!(cards[0].key, "abc123");
    assert_eq!(cards[0].title, "Title A");
    assert_eq!(cards[0].cover.as_deref(), Some("https://x/c.jpg"));
    assert_eq!(cards[0].url.as_deref(), Some("https://rouman5.com/books/abc123"));
    assert_eq!(cards[0].status, MangaStatus::Unknown);
    assert_eq!(cards[0].viewer, Viewer::Webtoon);
}

#[test]
fn extract_manga_cards_skips_chapter_anchors() {
    let cards = extract_manga_cards(&vec![card("/books/abc/1", "chap"), card("/books/xyz", "manga")], BASE_URL);
    assert_eq!(cards.len(), 1);
    assert_eq!(cards[0].key, "xyz");
}

#[test]
fn extract_manga_cards_dedupes_repeated_keys() {
    let cards = extract_manga_cards(&vec![card("/books/dup", "first"), card("/books/dup", "second")], BASE_URL);
    assert_eq!(cards.len(), 1);
    assert_eq!(cards[0].key, "dup");
    assert_eq!(cards[0].title, "first", "first occurrence wins");
}

#[test]
fn extract_manga_cards_skips_empty_titles() {
    let cards = extract_manga_cards(&vec![card("/books/a", "   "), card("/books/b", "real")], BASE_URL);
    assert_eq!(cards.len(), 1);
    assert_eq!(cards[0].key, "b");
}

#[test]
fn extract_manga_cards_parses_latest_chapter() {
    let mut c = card("/books/abc123", "Title A");
    c.muted_lines = vec![s("至: 第5話-測試標題")];
    c.cover_style = Some(s("background-image:url(&quot;https://x/c.jpg&quot;)"));
    let cards = extract_manga_cards(&vec![c], BASE_URL);
    assert_eq!(cards.len(), 1);
    assert!(
        cards[0].description.as_deref().unwrap_or("").contains("第5話"),
        "description should contain the latest chapter, got {:?}",
        cards[0].description
    );
    assert_eq!(cards[0].description.as_deref(), Some("第5話-測試標題"));
}

#[test]
fn extract_manga_cards_parses_stats_tags() {
    let mut c = card("/books/abc123", "Title A");
    c.muted_lines = vec![s("至: 第5話-測試標題"), s("862.4K"), s("5.1K"), s("8/12/2026")];
    c.cover_style = Some(s("background-image:url(&quot;https://x/c.jpg&quot;)"));
    let cards = extract_manga_cards(&vec![c], BASE_URL);
    assert_eq!(cards.len(), 1);
    let tags = cards[0].tags.as_deref().expect("tags");
    assert_eq!(tags.len(), 3);
    assert_eq!(tags[0], "浏览 862.4K");
    assert_eq!(tags[1], "收藏 5.1K");
    assert_eq!(tags[2], "更新 8/12/2026");
}

#[test]
fn extract_manga_cards_with_only_a_date_has_no_tags() {
    let mut c = card("/books/abc123", "Title A");
    c.muted_lines = vec![s("至: 第1話"), s(" 8/12/2026 ")];
    let cards = extract_manga_cards(&vec![c], BASE_URL);
    assert_eq!(cards[0].tags, None);
    assert_eq!(cards[0].description.as_deref(), Some("第1話"));
}

#[test]
fn extract_manga_cards_reads_h3_markup_where_the_title_line_is_missing() {
    let mut blank = h3_card("/books/a", "   ");
    blank.h3_text = Some(s(" "));
    let mut text_only = h3_card("/books/b", "  ");
    text_only.h3_text = Some(s(" 標題 "));
    let mut meta = h3_card("/books/c", "C");
    meta.latest = Some(s(" 第5話 "));
    meta.meta_spans = Some(vec![s(" 韓國 "), s(""), s("862.4K")]);
    let mut one = h3_card("/books/d", "D");
    one.meta_spans = Some(vec![s("日本")]);
    let mut div_wins = h3_card("/books/e", "h3 title");
    div_wins.title_text = Some(s(" div title "));
    let cards = extract_manga_cards(&vec![blank, text_only, meta, one, div_wins], BASE_URL);
    assert_eq!(cards.len(), 4);
    assert_eq!(cards[0].title, "標題");
    assert_eq!(cards[0].cover.as_deref(), Some("https://x/c.jpg"));
    assert_eq!(cards[1].description.as_deref(), Some("第5話"));
    assert_eq!(cards[1].tags, Some(vec![s("地区 韓國"), s("浏览 862.4K")]));
    assert_eq!(cards[2].tags, Some(vec![s("地区 日本")]));
    assert_eq!(cards[3].title, "div title");
}

#[test]
fn has_next_page_detects_next_page_link() {
    let anchors = vec![link(Some("/books?page=3"), Some("3")), link(Some("/books?page=2"), Some("2"))];
    assert!(has_next_page_from_html(&anchors, 1));
    assert!(!has_next_page_from_html(&anchors, 3));
    assert!(!has_next_page_from_html(&anchors, 0));
}

#[test]
fn has_next_page_detects_text_only_pagination() {
    assert!(has_next_page_from_html(&vec![link(Some("#"), Some("下一頁"))], 0));
    assert!(has_next_page_from_html(&vec![link(None, Some("Next »"))], 7));
    assert!(!has_next_page_from_html(&vec![link(None, None)], 0));
}

#[test]
fn parse_manga_listing_combines_cards_and_pagination() {
    let r = parse_manga_listing(
        &vec![card("/books/a", "A")],
        &vec![link(Some("/books?page=1"), None)],
        0,
        BASE_URL,
    );
    assert_eq!(r.entries.len(), 1);
    assert!(r.has_next_page);
}

#[test]
fn home_sections_table() {
    let sections = home_sections();
    assert_eq!(sections.len(), 5);
    assert_eq!(sections[0].titles, vec![s("正熱門")]);
    assert_eq!(sections[0].kind, HomeSectionKind::BigScroller);
    assert_eq!(sections[1].kind, HomeSectionKind::MangaList { ranking: true, page_size: 3 });
    assert_eq!(sections[4].subtitles, vec![s("完結精選")]);
}

#[test]
fn find_title_element_picks_first_match() {
    let texts = vec![None, Some(s("其他")), Some(s(" 今日最佳 ")), Some(s("今日最佳"))];
    assert_eq!(find_title_element(&texts, &vec![s("今日最佳")]), Some(2));
    assert_eq!(find_title_element(&texts, &vec![s("不存在")]), None);
}

#[test]
fn parse_home_layout_keeps_found_sections_in_order() {
    let found = vec![
        Some(FoundSection { title_text: Some(s(" 正熱門 ")), cards: vec![card("/books/a", "A")] }),
        None,
        None,
        Some(FoundSection { title_text: None, cards: Vec::new() }),
        None,
    ];
    let layout = parse_home_layout(&found, BASE_URL);
    assert_eq!(layout.len(), 2);
    assert_eq!(layout[0].title.as_deref(), Some("正熱門"));
    assert_eq!(layout[0].subtitle.as_deref(), Some("當下超高人氣作品"));
    assert_eq!(layout[0].entries.len(), 1);
    assert_eq!(layout[1].title.as_deref(), Some(""));
    assert_eq!(layout[1].kind, HomeSectionKind::MangaList { ranking: true, page_size: 3 });
}

#[test]
fn dynamic_settings_offer_custom_address() {
    let settings = dynamic_settings();
    assert_eq!(settings.len(), 2);
    match &settings[0] {
        SettingSpec::Text { key, placeholder, refreshes, .. } => {
            assert_eq!(key, "base_url");
            assert_eq!(placeholder.as_deref(), Some(BASE_URL));
            assert_eq!(refreshes, &Some(vec![s("content")]));
        }
        _ => panic!("first setting must be the custom address"),
    }
    match &settings[1] {
        SettingSpec::Link { url, external, .. } => {
            assert_eq!(url, "https://rdz3.xyz/dizhi");
            assert_eq!(*external, Some(true));
        }
        _ => panic!("second setting must be the address link"),
    }
}
