use aidoku_sources::roumanwu::utils::{
    base64_decode, extract_url_from_style, json_string, md5_hash, site_page, slice_between,
    urlencode,
};

fn hex(bytes: &[u8]) -> String {
    bytes.iter().map(|b| format!("{b:02x}")).collect()
}

#[test]
fn md5_of_empty_input() {
    assert_eq!(hex(&md5_hash(b"")), "d41d8cd98f00b204e9800998ecf8427e");
}

#[test]
fn md5_of_abc() {
    assert_eq!(hex(&md5_hash(b"abc")), "900150983cd24fb0d6963f7d28e17f72");
}

#[test]
fn md5_across_two_blocks() {
    // 56 bytes forces the padding into a second block.
    let data = b"abcdbcdecdefdefgefghfghighijhijkijkljklmklmnlmnomnopnopq";
    assert_eq!(hex(&md5_hash(data)), "8215ef0796a20bcaaae116d3876c664a");
}

#[test]
fn md5_of_sentence() {
    assert_eq!(
        hex(&md5_hash(b"The quick brown fox jumps over the lazy dog")),
        "9e107d9d372bb6826bd81d3542a419d6"
    );
}

#[test]
fn base64_decodes_padded_text() {
    assert_eq!(base64_decode("aGVsbG8="), b"hello".to_vec());
    assert_eq!(base64_decode("aGk="), b"hi".to_vec());
    assert_eq!(base64_decode("YWJj"), b"abc".to_vec());
}

#[test]
fn base64_stops_at_padding_and_skips_foreign_characters() {
    assert_eq!(base64_decode("YW Jj"), b"abc".to_vec());
    assert_eq!(base64_decode("YQ==YWJj"), b"a".to_vec());
    assert_eq!(base64_decode(""), Vec::<u8>::new());
}

#[test]
fn base64_decodes_the_cdn_key() {
    let decoded = base64_decode(
        "czM6Ly9yb3VtYW4vaW1hZ2VzL2NtNHN4MXpwYTAwMGF2bmwwemlxbmJmeTUvZnJlZXgvNDQ1NDUvMjY5NjI4MS5qcGc",
    );
    assert_eq!(
        String::from_utf8(decoded).unwrap(),
        "s3://rouman/images/cm4sx1zpa000avnl0ziqnbfy5/freex/44545/2696281.jpg"
    );
}

#[test]
fn urlencode_keeps_unreserved_and_escapes_the_rest() {
    assert_eq!(urlencode("abc-_.~XYZ09"), "abc-_.~XYZ09");
    assert_eq!(urlencode("a b&c"), "a%20b%26c");
    assert_eq!(urlencode("妻"), "%E5%A6%BB");
    assert_eq!(urlencode(""), "");
}

#[test]
fn site_page_is_zero_based() {
    assert_eq!(site_page(1), 0);
    assert_eq!(site_page(5), 4);
    assert_eq!(site_page(0), 0);
    assert_eq!(site_page(-3), 0);
    assert_eq!(site_page(i32::MAX), i32::MAX - 1);
}

#[test]
fn extract_url_from_style_reads_quoted_url() {
    assert_eq!(
        extract_url_from_style("background-image:url(&quot;https://x/c.jpg&quot;)").as_deref(),
        Some("https://x/c.jpg")
    );
    assert_eq!(
        extract_url_from_style("background-image:url(\"https://x/d.jpg\")").as_deref(),
        Some("https://x/d.jpg")
    );
    assert_eq!(extract_url_from_style("background:red"), None);
    assert_eq!(extract_url_from_style("url(\"unterminated"), None);
}

#[test]
fn slice_between_returns_inner_text() {
    assert_eq!(slice_between("<a>mid</a>", "<a>", "</a>"), Some("mid"));
    assert_eq!(slice_between("xx<a></a>", "<a>", "</a>"), Some(""));
    assert_eq!(slice_between("<a>mid", "<a>", "</a>"), None);
    assert_eq!(slice_between("mid</a>", "<a>", "</a>"), None);
    assert_eq!(slice_between("前<b>中文</b>後", "<b>", "</b>"), Some("中文"));
}

#[test]
fn json_string_unescapes_the_value() {
    assert_eq!(
        json_string(r#"{"name":"A \"B\" \u4e2d\/x"}"#, "name").as_deref(),
        Some("A \"B\" 中/x")
    );
    assert_eq!(json_string(r#"{"name":"line\nnext"}"#, "name").as_deref(), Some("line\nnext"));
    assert_eq!(json_string(r#"{"name":"keep \q"}"#, "name").as_deref(), Some("keep \\q"));
}

#[test]
fn json_string_rejects_missing_empty_or_unterminated_values() {
    assert_eq!(json_string(r#"{"other":"x"}"#, "name"), None);
    assert_eq!(json_string(r#"{"name":""}"#, "name"), None);
    assert_eq!(json_string(r#"{"name":"open"#, "name"), None);
}

#[test]
fn base64_round_trips_standard_encodings() {
    assert_eq!(base64_decode("SGVsbG8="), b"Hello".to_vec());
    assert_eq!(base64_decode("SGVsbG8"), b"Hello".to_vec());
    assert_eq!(base64_decode("czM6Ly9yb3VtYW4v"), b"s3://rouman/".to_vec());
    assert_eq!(base64_decode("5ryr55S7"), "漫画".as_bytes().to_vec());
    assert_eq!(base64_decode("/+8="), vec![0xff, 0xef]);
}

#[test]
fn urlencode_round_trip_example() {
    assert_eq!(urlencode("人妻 a/b"), "%E4%BA%BA%E5%A6%BB%20a%2Fb");
    assert!(urlencode("描述 ~x").chars().all(|c| c.is_ascii_alphanumeric() || "-_.~%".contains(c)));
}
