use aidoku_sources::model::{ContentRating, MangaStatus, Viewer};
use aidoku_sources::roumanwu::detail::{
    absolutize, decode_entities, decode_script_entities, json_ld_description, json_top_level_string,
    manga_status_from_text, parse_chapters, parse_manga_detail, unescape_json_string, ChapterAnchor,
    DetailPage,
};

fn s(x: &str) -> String {
    String::from(x)
}

fn anchor(href: &str, text: &str, span: Option<&str>) -> ChapterAnchor {
    ChapterAnchor { href: Some(s(href)), text: Some(s(text)), span_title: span.map(s) }
}

#[test]
fn json_top_level_string_returns_value() {
    let json = r#"{"name":"Hajime no Ippo","other":42}"#;
    assert_eq!(json_top_level_string(json, "name").as_deref(), Some("Hajime no Ippo"));
}

#[test]
fn json_top_level_string_returns_none_for_missing_key() {
    let json = r#"{"other":42}"#;
    assert_eq!(json_top_level_string(json, "name"), None);
}

#[test]
fn json_top_level_string_unescapes_and_rejects_empty() {
    assert_eq!(
        json_top_level_string(r#"{"d":"a\"b\u4e2d\n"}"#, "d").as_deref(),
        Some("a\"b中\n")
    );
    assert_eq!(json_top_level_string(r#"{"d":""}"#, "d"), None);
    assert_eq!(json_top_level_string(r#"{"d":"open"#, "d"), None);
}

#[test]
fn unescape_json_string_handles_escapes() {
    assert_eq!(unescape_json_string(r#"x\/y\tz\\"#), "x/y\tz\\");
    assert_eq!(unescape_json_string(r#"\u0041\uZZZZ!"#), "A!");
}

#[test]
fn manga_status_from_text_maps_known_values() {
    assert_eq!(manga_status_from_text("連載中"), MangaStatus::Ongoing);
    assert_eq!(manga_status_from_text("已完結"), MangaStatus::Completed);
    assert_eq!(manga_status_from_text("完結"), MangaStatus::Completed);
    assert_eq!(manga_status_from_text("休刊中"), MangaStatus::Hiatus);
    assert_eq!(manga_status_from_text("停刊"), MangaStatus::Hiatus);
    assert_eq!(manga_status_from_text(""), MangaStatus::Unknown);
    assert_eq!(manga_status_from_text("garbage"), MangaStatus::Unknown);
}

#[test]
fn decode_entities_handles_common_html_entities() {
    let decoded = decode_entities("A &amp; B &quot;C&quot; &#039;D&#039; &lt;E&gt;");
    assert_eq!(decoded, "A & B \"C\" 'D' <E>");
}

#[test]
fn decode_script_entities_unwraps_nested_encodings() {
    assert_eq!(decode_script_entities("&amp;#25551;&amp;#36848;"), "描述");
    assert_eq!(decode_script_entities("&amp;amp;amp;amp;amp;quot;"), "\"");
    assert_eq!(decode_script_entities("&#x4E2D;&#X6587; &#039;x&#039;"), "中文 'x'");
    assert_eq!(decode_script_entities("a & b &unknown; &#xD800; &#"), "a & b &unknown; &#xD800; &#");
}

#[test]
fn json_ld_description_reads_encoded_description() {
    let ld = s(r#"{&quot;@type&quot;:&quot;Book&quot;,&quot;description&quot;:&quot;&amp;#25551;&amp;#36848;&quot;}"#);
    assert_eq!(json_ld_description(&Some(ld)).as_deref(), Some("描述"));
    assert_eq!(json_ld_description(&Some(s(r#"{"description":""}"#))), None);
    assert_eq!(json_ld_description(&None), None);
}

#[test]
fn absolutize_resolves_relative_urls() {
    assert_eq!(absolutize("https://cdn/x.jpg", "https://rouman5.com"), "https://cdn/x.jpg");
    assert_eq!(absolutize("/covers/x.jpg", "https://rouman5.com/"), "https://rouman5.com/covers/x.jpg");
    assert_eq!(absolutize("covers/x.jpg", "https://rouman5.com//"), "https://rouman5.com/covers/x.jpg");
}

#[test]
fn parse_chapters_uses_span_titles_and_skips_the_start_button() {
    let anchors = vec![
        anchor("/books/k/0", "開始閱讀", None),
        anchor("/books/k/0", "第1話 ↗", Some("第1話")),
        anchor("/books/k/1", "  番外  ", Some("  ")),
        anchor("/books/k/x", "", None),
    ];
    let chapters = parse_chapters(&anchors, "k", "https://rouman5.com");
    assert_eq!(chapters.len(), 3);
    assert_eq!(chapters[0].key, "0");
    assert_eq!(chapters[0].title.as_deref(), Some("第1話"));
    assert_eq!(chapters[0].chapter_number, Some(1));
    assert_eq!(chapters[0].url.as_deref(), Some("https://rouman5.com/books/k/0"));
    assert_eq!(chapters[0].language.as_deref(), Some("zh"));
    assert_eq!(chapters[1].title.as_deref(), Some("番外"));
    assert_eq!(chapters[1].chapter_number, Some(2));
    assert_eq!(chapters[2].key, "0");
    assert_eq!(chapters[2].title, None);
}

#[test]
fn parse_manga_detail_reads_rows_and_reverses_chapters() {
    let page = DetailPage {
        title: Some(s("  標題  ")),
        cover: Some(s("/c.jpg")),
        data_rows: Some(vec![
            Some(s("作者")),
            Some(s(" A &amp; B ")),
            Some(s("狀態")),
            Some(s("連載中")),
            Some(s("地區")),
            Some(s("韓國")),
        ]),
        synopsis: Some(s("  ")),
        json_ld: Some(s(r#"{"description":"from ld"}"#)),
        chapter_anchors: vec![anchor("/books/k/0", "a", None), anchor("/books/k/1", "b", None)],
    };
    let m = parse_manga_detail(&page, "k", "https://rouman5.com");
    assert_eq!(m.key, "k");
    assert_eq!(m.title, "標題");
    assert_eq!(m.cover.as_deref(), Some("https://rouman5.com/c.jpg"));
    assert_eq!(m.authors, Some(vec![s("A & B")]));
    assert_eq!(m.status, MangaStatus::Ongoing);
    assert_eq!(m.description.as_deref(), Some("from ld"));
    assert_eq!(m.url.as_deref(), Some("https://rouman5.com/books/k"));
    assert_eq!(m.content_rating, ContentRating::NSFW);
    assert_eq!(m.viewer, Viewer::Webtoon);
    let chapters = m.chapters.expect("chapters");
    assert_eq!(chapters.len(), 2);
    assert_eq!(chapters[0].key, "1");
    assert_eq!(chapters[1].key, "0");
}

#[test]
fn parse_manga_detail_without_rows_or_chapters() {
    let page = DetailPage {
        title: None,
        cover: None,
        data_rows: None,
        synopsis: Some(s(" 簡介 ")),
        json_ld: None,
        chapter_anchors: Vec::new(),
    };
    let m = parse_manga_detail(&page, "k", "https://rouman5.com");
    assert_eq!(m.title, "");
    assert_eq!(m.authors, None);
    assert_eq!(m.status, MangaStatus::Unknown);
    assert_eq!(m.description.as_deref(), Some("簡介"));
    assert!(m.chapters.is_none());
}
