use aidoku_sources::roumanwu::chapter::{
    build_pages, dedup_preserving_order, extract_image_url_ind_pairs, extract_json_string_array,
    extract_rsc_chunk, find_image_paths_array, parse_chapter_pages, parse_image_paths_payload,
    page_count_from_widget, resolve_chapter_url, skip_optional_array_lhs,
    unescape_json_string_into,
};
use aidoku_sources::roumanwu::image::{scramble_plan, scramble_slices, unscramble_image_url};
use aidoku_sources::Roumanwu;

fn s(x: &str) -> String {
    String::from(x)
}

fn scripts(bodies: &[&str]) -> Vec<Option<String>> {
    bodies.iter().map(|b| Some(s(b))).collect()
}

#[test]
fn resolve_chapter_url_passes_absolute_through() {
    let url = resolve_chapter_url("https://other.example/books/x/1", "https://rouman5.com");
    assert_eq!(url, "https://other.example/books/x/1");
}

#[test]
fn resolve_chapter_url_prepends_base_for_relative_path() {
    let url = resolve_chapter_url("/books/x/1", "https://rouman5.com");
    assert_eq!(url, "https://rouman5.com/books/x/1");
}

#[test]
fn build_pages_marks_scrambled_urls_with_context() {
    let tagged = vec![(s("https://x/a"), false), (s("https://x/b-sr:1"), true)];
    let pages = build_pages(tagged);
    assert_eq!(pages.len(), 2);
    assert_eq!(pages[0].url, "https://x/a");
    assert!(pages[0].context.is_none(), "non-scrambled URL must have no context");
    assert_eq!(pages[1].url, "https://x/b-sr:1");
    let ctx = pages[1].context.as_ref().expect("scrambled URL must carry context");
    assert_eq!(ctx, &vec![(s("scramble"), s("1"))]);
}

#[test]
fn build_pages_handles_empty_input() {
    let pages = build_pages(Vec::new());
    assert!(pages.is_empty());
}

#[test]
fn scramble_slices_derives_count_from_url() {
    let scrambled = "https://r5.rmcdn10.xyz/m/bWYO6lLCSUgUlH3ZcUEfkwofo1hVCAx9RUc_bw0PnRU/wm:0/sr:1/czM6Ly9yb3VtYW4vaW1hZ2VzL2NtNHN4MXpwYTAwMGF2bmwwemlxbmJmeTUvZnJlZXgvNDQ1NDUvMjY5NjI4MS5qcGc.jpg";
    assert_eq!(scramble_slices(scrambled), Some(8));
    assert!(unscramble_image_url(scrambled), "sr:1 URL must be marked scrambled");

    let plain = "https://r5.rmcdn11.xyz/m/uUzbUTZLfXg1oylH22QyIByCcolLMdPtncHSkLuSMMs/wm:2/sr:0/czM6Ly9yb3VtYW4vaW1hZ2VzL2NtNHN4MXpwYTAwMGF2bmwwemlxbmJmeTUvZnJlZXgvNDQ1NDUvMjY5NjI4Mi5qcGc.jpg";
    assert_eq!(scramble_slices(plain).is_some(), true);
    assert!(!unscramble_image_url(plain), "sr:0 URL must not be marked scrambled");
}

#[test]
fn scramble_slices_stays_in_range_without_extension() {
    let n = scramble_slices("no-slash-no-dot").unwrap();
    assert!((5..=14).contains(&n));
}

#[test]
fn scramble_plan_restores_band_order() {
    // 103 rows in 5 bands: 20 rows each, the first band taking the 3 extra.
    let plan = scramble_plan(103, 5);
    assert_eq!(plan, vec![(80, 0, 23), (60, 23, 20), (40, 43, 20), (20, 63, 20), (0, 83, 20)]);
    let covered: i32 = plan.iter().map(|(_, _, h)| *h).sum();
    assert_eq!(covered, 103);
}

#[test]
fn scramble_plan_on_small_image() {
    // Fewer rows than bands: only the first band carries rows.
    let plan = scramble_plan(3, 5);
    assert_eq!(plan[0], (0, 0, 3));
    assert!(plan[1..].iter().all(|(_, _, h)| *h == 0));
}

#[test]
fn parse_chapter_pages_reassembles_from_rsc_scripts() {
    let body = scripts(&[
        r#"self.__next_f.push([1,"{\"imageUrl\":\"https://r5.rmcdn1.xyz/p0.jpg\",\"ind\":0}"])"#,
        r#"self.__next_f.push([1,"{\"imageUrl\":\"https://r5.rmcdn2.xyz/p1.jpg\",\"ind\":1}"])"#,
        "other()",
    ]);
    let (count, urls) = parse_chapter_pages(&Some(s("1/2頁")), &body);
    assert_eq!(count, 2);
    assert_eq!(urls, vec![s("https://r5.rmcdn1.xyz/p0.jpg"), s("https://r5.rmcdn2.xyz/p1.jpg")]);
}

#[test]
fn parse_chapter_pages_drops_corrupted_urls() {
    let body = scripts(&[
        r#"self.__next_f.push([1,"{\"imageUrl\":\"https\",\"ind\":0}"])"#,
        r#"self.__next_f.push([1,"{\"imageUrl\":\"https://r5.rmcdn2.xyz/p1.jpg\",\"ind\":1}"])"#,
    ]);
    let (count, urls) = parse_chapter_pages(&Some(s("1/2頁")), &body);
    assert_eq!(count, 2);
    assert_eq!(urls.len(), 1);
    assert_eq!(urls[0], "https://r5.rmcdn2.xyz/p1.jpg");
}

#[test]
fn parse_chapter_pages_orders_legacy_pairs_by_ind_and_dedupes() {
    let body = scripts(&[
        r#"self.__next_f.push([1,"{\"imageUrl\":\"https://x/b.jpg\",\"ind\":2}{\"imageUrl\":\"https://x/a.jpg\",\"ind\":1}"])"#,
        r#"self.__next_f.push([1,"{\"imageUrl\":\"https://x/a.jpg\",\"ind\":3}"])"#,
    ]);
    let (_, urls) = parse_chapter_pages(&None, &body);
    assert_eq!(urls, vec![s("https://x/a.jpg"), s("https://x/b.jpg")]);
}

#[test]
fn parse_chapter_pages_prefers_image_paths() {
    let body = scripts(&[
        r#"self.__next_f.push([1,"{\"imageUrl\":\"https://legacy/x.jpg\",\"ind\":0}"])"#,
        r#"$R[1]={imagePaths:$R[27]=["https://a/1.jpg","https://a/2.jpg","https://a/1.jpg","frag"]}"#,
    ]);
    let (_, urls) = parse_chapter_pages(&None, &body);
    assert_eq!(urls, vec![s("https://a/1.jpg"), s("https://a/2.jpg")]);
}

#[test]
fn parse_image_paths_payload_needs_an_http_entry() {
    let none = scripts(&[r#"x={imagePaths:["a","b"]}"#]);
    assert_eq!(parse_image_paths_payload(&none), None);
    let some = scripts(&[r#"x={imagePaths:["a","https://c/d.jpg"]}"#]);
    assert_eq!(parse_image_paths_payload(&some), Some(vec![s("https://c/d.jpg")]));
    let unreadable = vec![None, Some(s(r#"x={imagePaths:["https://c/d.jpg"]}"#))];
    assert_eq!(parse_image_paths_payload(&unreadable), None);
}

#[test]
fn find_image_paths_array_handles_both_shapes() {
    assert_eq!(find_image_paths_array(r#"{imagePaths:["a"]}"#), Some(12));
    assert_eq!(find_image_paths_array(r#"{imagePaths:$R[27]=["a"]}"#), Some(19));
    assert_eq!(find_image_paths_array(r#"{imagePaths:x, imagePaths:["a"]}"#), Some(26));
    assert_eq!(find_image_paths_array("no marker"), None);
}

#[test]
fn skip_optional_array_lhs_cases() {
    assert_eq!(skip_optional_array_lhs("[1]", 0), Some(0));
    assert_eq!(skip_optional_array_lhs("$R[12]=[", 0), Some(7));
    assert_eq!(skip_optional_array_lhs("[3]=[", 0), Some(4));
    assert_eq!(skip_optional_array_lhs("[27]=[]", 0), Some(5));
    assert_eq!(skip_optional_array_lhs("[27][", 0), Some(0));
    assert_eq!(skip_optional_array_lhs("$R[]=[", 0), Some(5));
    assert_eq!(skip_optional_array_lhs("$R[1][", 0), Some(5));
    assert_eq!(skip_optional_array_lhs("$R[1]x", 0), None);
    assert_eq!(skip_optional_array_lhs("$Q[1]=[", 0), None);
    assert_eq!(skip_optional_array_lhs("x[", 0), None);
    assert_eq!(skip_optional_array_lhs("ab", 5), None);
}

#[test]
fn extract_json_string_array_unescapes_entries() {
    let entries = extract_json_string_array(r#"[ "a\"b", "c\\d","\u4e2d",  "多字节" ]"#);
    assert_eq!(entries, vec![s("a\"b"), s("c\\d"), s("中"), s("多字节")]);
    assert_eq!(extract_json_string_array(r#"["x", 1, "y"]"#), vec![s("x")]);
    assert_eq!(extract_json_string_array("not an array"), Vec::<String>::new());
    assert_eq!(extract_json_string_array(r#"["open"#), Vec::<String>::new());
}

#[test]
fn extract_rsc_chunk_strips_wrapper() {
    assert_eq!(extract_rsc_chunk(r#"self.__next_f.push([1,"abc"])"#), Some("abc"));
    assert_eq!(extract_rsc_chunk(r#"self.__next_f.push([1,"a"])b"])"#), Some(r#"a"])b"#));
    assert_eq!(extract_rsc_chunk(r#"self.__next_f.push([3,"abc"])"#), Some("abc"));
    assert_eq!(extract_rsc_chunk(r#"self.__next_f.push([12,"a"b"])"#), Some(r#"a"b"#));
    assert_eq!(extract_rsc_chunk(r#"self.__next_f.push([1])"#), None);
    assert_eq!(extract_rsc_chunk(r#"self.__next_f.push([1,"abc"#), None);
}

#[test]
fn unescape_json_string_into_appends() {
    let mut out = s("> ");
    unescape_json_string_into(r#"a\"b\\c\nd\u0041\q"#, &mut out);
    assert_eq!(out, "> a\"b\\c\ndAq");
}

#[test]
fn extract_image_url_ind_pairs_sorts_stably() {
    let payload = r#"{"imageUrl":"https://x/2","ind":2}{"imageUrl":"https://x/0","ind":0}{"imageUrl":"https://x/2b","ind":2}{"imageUrl":"bad","ind":1}{"imageUrl":"https://x/none"}"#;
    let pairs = extract_image_url_ind_pairs(payload);
    assert_eq!(
        pairs,
        vec![(0, s("https://x/0")), (2, s("https://x/2")), (2, s("https://x/2b"))]
    );
}

#[test]
fn dedup_preserving_order_keeps_first_occurrence() {
    let entries = vec![(0, s("a")), (1, s("b")), (2, s("a")), (3, s("c")), (4, s("b"))];
    assert_eq!(dedup_preserving_order(entries), vec![s("a"), s("b"), s("c")]);
}

#[test]
fn page_list_tags_scrambled_pages() {
    let src = Roumanwu::new();
    let body = scripts(&[r#"x={imagePaths:["https://c/sr:1/a.jpg","https://c/sr:0/b.jpg"]}"#]);
    let pages = src.page_list(&body);
    assert_eq!(pages.len(), 2);
    assert!(src.needs_unscramble(&pages[0].context));
    assert!(!src.needs_unscramble(&pages[1].context));
    assert_eq!(pages[1].context, None);
}

#[test]
fn needs_unscramble_reads_the_first_scramble_entry() {
    let src = Roumanwu::new();
    assert!(!src.needs_unscramble(&None));
    assert!(src.needs_unscramble(&Some(vec![(s("x"), s("y")), (s("scramble"), s("1"))])));
    assert!(!src.needs_unscramble(&Some(vec![(s("scramble"), s("0")), (s("scramble"), s("1"))])));
    assert!(!src.needs_unscramble(&Some(Vec::new())));
}

#[test]
fn extract_json_string_array_accepts_any_escape() {
    assert_eq!(extract_json_string_array(r#"["a", "b\"#), vec![s("a")]);
    assert_eq!(extract_json_string_array(r#"["a\é"]"#), vec![s("aé")]);
    assert_eq!(extract_json_string_array(r#"["\u000é"]"#), vec![s("")]);
    assert_eq!(extract_json_string_array(r#"["\uabcé", "描"]"#), vec![s(""), s("描")]);
    assert_eq!(extract_json_string_array(r#"["\u4e2", "x"]"#), vec![s(", ")]);
}

#[test]
fn unescape_json_string_into_keeps_multibyte_text() {
    let mut out = s("x");
    unescape_json_string_into(r#"a\"b\/c\u4e00描"#, &mut out);
    assert_eq!(out, "xa\"b/c一描");
    let mut out = String::new();
    unescape_json_string_into(r"\u000é", &mut out);
    assert_eq!(out, "");
    let mut out = String::new();
    unescape_json_string_into(r"\u00é1x", &mut out);
    assert_eq!(out, "x");
    let mut out = String::new();
    unescape_json_string_into(r"\u12", &mut out);
    assert_eq!(out, "12");
}

#[test]
fn parse_chapter_pages_reads_multibyte_chunks() {
    let body = scripts(&[
        r#"self.__next_f.push([3,"{\"imageUrl\":\"https://x/漫画/1.jpg\",\"ind\":0}"])"#,
        r#"self.__next_f.push([1,"\u000é"])"#,
    ]);
    let (count, urls) = parse_chapter_pages(&None, &body);
    assert_eq!(count, 0);
    assert_eq!(urls, vec![s("https://x/漫画/1.jpg")]);
    let (_, none) = parse_chapter_pages(&None, &scripts(&[r#"x={imagePaths:["\u000é"]}"#]));
    assert!(none.is_empty());
}

#[test]
fn page_count_from_widget_reads_the_number_after_the_slash() {
    assert_eq!(page_count_from_widget(&Some(s("1/73頁"))), Some(73));
    assert_eq!(page_count_from_widget(&Some(s("5/123頁"))), Some(123));
    assert_eq!(page_count_from_widget(&None), None);
    assert_eq!(page_count_from_widget(&Some(s("no count"))), None);
    assert_eq!(page_count_from_widget(&Some(s("1/頁"))), None);
    assert_eq!(page_count_from_widget(&Some(s("1/99999999999頁"))), None);
}
