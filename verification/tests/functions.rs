use dufs_r2_worker::auth::{
    authenticate, compose_token, constant_time_eq, download_token, read_token, token_signature,
    verify_basic, verify_download_token, Credentials,
};
use dufs_r2_worker::escape::{html_escape, xml_escape};
use dufs_r2_worker::files::file_response;
use dufs_r2_worker::keys::{
    destination_key, directory_marker, directory_prefix, href_for_key, is_public_share_key,
    join_key, normalize_decoded, normalize_key,
};
use dufs_r2_worker::listing::{directory_items, name_matches};
use dufs_r2_worker::machine::{Action, Conditions, Step, Task};
use dufs_r2_worker::media::{
    content_disposition, content_disposition_with_type, content_type_for, is_text_content_type,
    public_share_content_disposition,
};
use dufs_r2_worker::model::{Listing, ObjectInfo, PathItem, PathType};
use dufs_r2_worker::multipart::{
    decode_multipart_session, encode_multipart_session, multipart_part_count,
    multipart_part_length, multipart_session_signature, session_is_usable, MultipartSession,
    MULTIPART_PART_SIZE,
};
use dufs_r2_worker::numbers::{decimal_text, parse_u16, parse_u64};
use dufs_r2_worker::pages::{
    dav_item_xml, edit_data, file_item, index_data, interface_html, public_share_index,
    public_share_item_row, simple_listing, DataKind,
};
use dufs_r2_worker::query::{query_params, Query};
use dufs_r2_worker::range::parse_range;
use dufs_r2_worker::reply::{
    dav_multistatus, failure_response, fixed_response, handle_lock, internal_response,
    json_response, options_response, proppatch_response, public_share_method_not_allowed,
    public_share_redirect, text_response, unauthorized_response, Assets, Body, Reply,
};
use dufs_r2_worker::sort::{sort_items, sort_paths, sort_ranked, Ranked, SortKey};
use dufs_r2_worker::text::{
    contains_text, eq_ignore_ascii_case, last_part, parent_part, replace_text, split, split_once,
    trim, trim_end_char, trim_start_char,
};

fn file(name: &str, mtime: u64, size: u64) -> PathItem {
    PathItem { path_type: PathType::File, name: name.to_string(), mtime, size }
}

fn dir(name: &str) -> PathItem {
    PathItem { path_type: PathType::Dir, name: name.to_string(), mtime: 0, size: 0 }
}

fn object(key: &str, size: u64, content_type: Option<&str>) -> ObjectInfo {
    ObjectInfo {
        key: key.to_string(),
        size,
        etag: "\"e1\"".to_string(),
        content_type: content_type.map(|t| t.to_string()),
        uploaded: 1_700_000_000_000,
    }
}

fn user() -> Credentials {
    Credentials { username: "admin".to_string(), password: "secret".to_string() }
}

fn query(pairs: &[(&str, &str)]) -> Query {
    Query { pairs: pairs.iter().map(|(n, v)| (n.to_string(), v.to_string())).collect() }
}

fn header<'a>(reply: &'a Reply, name: &str) -> Option<&'a str> {
    reply.headers.iter().find(|(n, _)| n == name).map(|(_, v)| v.as_str())
}

fn body_text(reply: &Reply) -> String {
    match &reply.body {
        Body::Bytes(bytes) => String::from_utf8(bytes.clone()).unwrap(),
        Body::Empty => String::new(),
        Body::Object => panic!("the body is an object"),
    }
}

fn names(items: &[PathItem]) -> Vec<&str> {
    items.iter().map(|item| item.name.as_str()).collect()
}

#[test]
fn path_normalisation_blocks_traversal_and_reserved_markers() {
    assert_eq!(normalize_key("/docs/a%20file.txt"), Ok("docs/a file.txt".into()));
    assert!(normalize_key("/docs/%2e%2e/secret").is_err());
    assert!(normalize_key("/.dufs-directory").is_err());
}

#[test]
fn public_share_scope_is_exactly_the_share_prefix() {
    assert!(is_public_share_key("share"));
    assert!(is_public_share_key("share/reports/q1.pdf"));
    assert!(!is_public_share_key("shares/report.pdf"));
    assert!(!is_public_share_key("private/share/report.pdf"));
}

#[test]
fn public_share_downloads_active_content() {
    assert!(
        public_share_content_disposition("share/photo.png", "image/png").starts_with("inline;")
    );
    assert!(
        public_share_content_disposition("share/readme.txt", "text/plain; charset=utf-8")
            .starts_with("inline;")
    );
    assert!(
        public_share_content_disposition("share/page.html", "text/html; charset=utf-8")
            .starts_with("attachment;")
    );
    assert!(
        public_share_content_disposition("share/logo.svg", "image/svg+xml")
            .starts_with("attachment;")
    );
}

#[test]
fn public_share_file_rows_include_download_buttons() {
    let file_row = public_share_item_row(
        "share",
        &PathItem {
            path_type: PathType::File,
            name: "report & q1.pdf".into(),
            mtime: 0,
            size: 42,
        },
    );
    assert!(file_row.contains(r#"class="download""#));
    assert!(file_row.contains(r#"download aria-label="Download report &amp; q1.pdf""#));
    assert!(file_row.contains(r#">42 bytes</span>"#));

    let dir_row = public_share_item_row(
        "share",
        &PathItem { path_type: PathType::Dir, name: "reports".into(), mtime: 0, size: 0 },
    );
    assert!(!dir_row.contains(r#"class="download""#));
    assert!(dir_row.contains(r#">folder</span>"#));
}

#[test]
fn byte_range_supports_common_single_range_forms() {
    assert_eq!(parse_range("bytes=0-4", 10), Ok((0, 4)));
    assert_eq!(parse_range("bytes=5-", 10), Ok((5, 9)));
    assert_eq!(parse_range("bytes=-3", 10), Ok((7, 9)));
    assert!(parse_range("bytes=10-11", 10).is_err());
}

#[test]
fn multipart_parts_are_fixed_size_except_for_the_final_part() {
    let session = MultipartSession {
        key: "archive.bin".into(),
        upload_id: "upload-id".into(),
        size: MULTIPART_PART_SIZE * 2 + 123,
        expires_at: u64::MAX,
    };
    assert_eq!(multipart_part_count(session.size), 3);
    assert_eq!(multipart_part_length(&session, 1), Some(MULTIPART_PART_SIZE));
    assert_eq!(multipart_part_length(&session, 2), Some(MULTIPART_PART_SIZE));
    assert_eq!(multipart_part_length(&session, 3), Some(123));
    assert_eq!(multipart_part_length(&session, 4), None);
}

#[test]
fn odd_paths_are_normalised() {
    assert_eq!(normalize_key("/"), Ok("".into()));
    assert_eq!(normalize_key("//a///b/"), Ok("a/b".into()));
    assert_eq!(normalize_key("/%E6%96%87%E4%BB%B6"), Ok("文件".into()));
    assert_eq!(normalize_key("/100%"), Ok("100%".into()));
    assert_eq!(normalize_key("/a%2Fb"), Ok("a/b".into()));
    assert!(normalize_key("/%ff").is_err());
    assert!(normalize_key("/a%00b").is_err());
    assert!(normalize_key("/a/./b").is_err());
    assert!(normalize_key("/a/.dufs-directory/b").is_err());
    assert_eq!(normalize_decoded("a b/c"), Ok("a b/c".into()));
    assert!(normalize_decoded("a/../c").is_err());
}

#[test]
fn links_lead_back_to_their_keys() {
    for key in ["", "a", "docs/a file.txt", "文件/ü&<>.txt", "100% sure?#x"] {
        let href = href_for_key(key, false);
        assert_eq!(normalize_key(&href), Ok(key.to_string()));
        assert_eq!(normalize_key(&href_for_key(key, true)), Ok(key.to_string()));
        assert!(href_for_key(key, true).ends_with('/'));
    }
    assert_eq!(href_for_key("docs/a file.txt", false), "/docs/a%20file%2Etxt");
    assert_eq!(href_for_key("", true), "/");
    assert_eq!(href_for_key("é", true), "/%C3%A9/");
}

#[test]
fn keys_are_composed() {
    assert_eq!(directory_prefix(""), "");
    assert_eq!(directory_prefix("a/b"), "a/b/");
    assert_eq!(directory_marker(""), ".dufs-directory");
    assert_eq!(directory_marker("a"), "a/.dufs-directory");
    assert_eq!(join_key("", "x"), "x");
    assert_eq!(join_key("a", "x"), "a/x");
    assert!(normalize_key(&href_for_key(&directory_marker("a"), false)).is_err());
    assert!(is_public_share_key(&join_key("share", "x")));
}

#[test]
fn destinations_are_urls_or_paths() {
    assert_eq!(
        destination_key(Some("https://dav.example.com/a%20b/c?x=1#y")),
        Some("a b/c".to_string())
    );
    assert_eq!(destination_key(Some("/plain/path")), Some("plain/path".to_string()));
    assert_eq!(destination_key(Some("https://h/a/.dufs-directory")), None);
    assert_eq!(destination_key(Some("/%2e%2e/x")), None);
    assert_eq!(destination_key(None), None);
}

#[test]
fn queries_are_decoded_and_the_last_value_counts() {
    let params = query_params("https://h/p?a=1&b=%26%20x+y&a=2&empty").unwrap();
    assert_eq!(params.get("a"), Some("2"));
    assert_eq!(params.get("b"), Some("& x y"));
    assert_eq!(params.get("empty"), Some(""));
    assert_eq!(params.get("none"), None);
    assert!(params.has("empty"));
    assert!(params.is("a", "2"));
    assert!(!params.is("a", "1"));
    assert!(query_params("/relative?a=1").is_none());
}

#[test]
fn numbers_are_written_and_read() {
    assert_eq!(decimal_text(0), "0");
    assert_eq!(decimal_text(u64::MAX), "18446744073709551615");
    assert_eq!(parse_u64("18446744073709551615"), Some(u64::MAX));
    assert_eq!(parse_u64("18446744073709551616"), None);
    assert_eq!(parse_u64("+7"), Some(7));
    assert_eq!(parse_u64("-7"), None);
    assert_eq!(parse_u64(""), None);
    assert_eq!(parse_u64("+"), None);
    assert_eq!(parse_u64(" 7"), None);
    assert_eq!(parse_u16("65535"), Some(65535));
    assert_eq!(parse_u16("65536"), None);
    assert_eq!(parse_u16("007"), Some(7));
}

#[test]
fn ranges_that_cannot_be_served_are_refused() {
    assert_eq!(parse_range("bytes=-30", 10), Ok((0, 9)));
    assert_eq!(parse_range("bytes=2-300", 10), Ok((2, 9)));
    assert_eq!(parse_range("bytes=9-9", 10), Ok((9, 9)));
    assert!(parse_range("bytes=5-4", 10).is_err());
    assert!(parse_range("bytes=-0", 10).is_err());
    assert!(parse_range("bytes=0-1,3-4", 10).is_err());
    assert!(parse_range("bytes=-", 10).is_err());
    assert!(parse_range("bytes=0", 10).is_err());
    assert!(parse_range("items=0-1", 10).is_err());
    assert!(parse_range("bytes=0-", 0).is_err());
    assert!(parse_range("bytes=x-1", 10).is_err());
}

#[test]
fn markup_is_escaped() {
    assert_eq!(html_escape("<a href=\"x\">'&'</a>"), "&lt;a href=&quot;x&quot;&gt;&#x27;&amp;&#x27;&lt;/a&gt;");
    assert_eq!(xml_escape("<a b='\"&'>"), "&lt;a b=&apos;&quot;&amp;&apos;&gt;");
    assert_eq!(html_escape("文 plain"), "文 plain");
    assert_ne!(html_escape("&lt;"), html_escape("<"));
    assert_ne!(xml_escape("&lt;"), xml_escape("<"));
}

#[test]
fn types_are_suggested_by_the_extension() {
    assert_eq!(content_type_for("a/B.HTML"), "text/html; charset=utf-8");
    assert_eq!(content_type_for("x.mjs"), "application/javascript; charset=utf-8");
    assert_eq!(content_type_for("x.yml"), "text/plain; charset=utf-8");
    assert_eq!(content_type_for("x.svg"), "image/svg+xml");
    assert_eq!(content_type_for("x.jpeg"), "image/jpeg");
    assert_eq!(content_type_for("css"), "text/css; charset=utf-8");
    assert_eq!(content_type_for("x.unknown"), "application/octet-stream");
    assert_eq!(content_type_for(""), "application/octet-stream");
    assert!(is_text_content_type("text/x-anything"));
    assert!(is_text_content_type("application/json; charset=utf-8"));
    assert!(!is_text_content_type("image/png"));
}

#[test]
fn dispositions_quote_the_last_part_of_the_key() {
    assert_eq!(content_disposition("a/b \"c\"\r\n.txt"), "inline; filename=\"b _c___.txt\"");
    assert_eq!(content_disposition_with_type("x", "attachment"), "attachment; filename=\"x\"");
    for active in ["image/svg+xml; charset=utf-8", "IMAGE/SVG+XML", "text/javascript", "text/html", "application/xhtml+xml"] {
        assert!(public_share_content_disposition("share/x", active).starts_with("attachment;"));
    }
    for passive in ["audio/mpeg", "video/mp4", "application/pdf", "APPLICATION/PDF", "image/webp"] {
        assert!(public_share_content_disposition("share/x", passive).starts_with("inline;"));
    }
    for written in [
        "application/pdf; version=1.7",
        "application/pdf ;a=b",
        "IMAGE/PNG",
        "Image/Jpeg; q=1",
        "Text/Plain; charset=utf-8",
        "VIDEO/mp4",
        "Audio/ogg; codecs=opus",
    ] {
        assert_eq!(
            public_share_content_disposition("share/x", written),
            "inline; filename=\"x\""
        );
    }
    for other in ["Image/Svg+Xml ; a=b", "TEXT/HTML", "application/pdfx", "", "images"] {
        assert!(public_share_content_disposition("share/x", other).starts_with("attachment;"));
    }
}

#[test]
fn comparison_is_equality() {
    assert!(constant_time_eq(b"", b""));
    assert!(constant_time_eq(b"abc", b"abc"));
    assert!(!constant_time_eq(b"abc", b"abd"));
    assert!(!constant_time_eq(b"abc", b"abcd"));
    assert!(!constant_time_eq(b"abc", b"abc\0"));
    assert!(!constant_time_eq(b"", b"\0"));
}

#[test]
fn tokens_open_their_key_until_they_expire() {
    let now = 1_000_000_000;
    let token = download_token("docs/a.txt", &user(), now);
    assert_eq!(
        token,
        "1259200000.cc8490f2590dac97d0b6e3e8a492d306a7a8699beece6728265bc78ee863d9a5"
    );
    assert_eq!(
        token_signature("docs/a.txt", 1_259_200_000, &user()),
        "cc8490f2590dac97d0b6e3e8a492d306a7a8699beece6728265bc78ee863d9a5"
    );
    assert!(verify_download_token(&token, "docs/a.txt", &user(), now));
    assert!(verify_download_token(&token, "docs/a.txt", &user(), 1_259_200_000));
    assert!(!verify_download_token(&token, "docs/a.txt", &user(), 1_259_200_001));
    assert!(!verify_download_token(&token, "docs/b.txt", &user(), now));
    let other = Credentials { username: "admin".to_string(), password: "other".to_string() };
    assert!(!verify_download_token(&token, "docs/a.txt", &other, now));
    assert!(!verify_download_token("1259200000", "docs/a.txt", &user(), now));
    assert!(!verify_download_token("x.y", "docs/a.txt", &user(), now));
    assert!(!verify_download_token(&token.replace("12592", "22592"), "docs/a.txt", &user(), now));
}

#[test]
fn tokens_are_composed_and_read() {
    assert_eq!(compose_token(12, "ab.cd"), "12.ab.cd");
    assert_eq!(read_token("12.ab.cd"), Some((12, "ab.cd".to_string())));
    assert_eq!(read_token("12"), None);
    assert_eq!(read_token("x.ab"), None);
    assert_eq!(read_token(".ab"), None);
}

#[test]
fn basic_credentials_let_the_user_in() {
    assert!(verify_basic("Basic YWRtaW46c2VjcmV0", &user()));
    assert!(!verify_basic("basic YWRtaW46c2VjcmV0", &user()));
    assert!(!verify_basic("Basic YWRtaW46c2VjcmV1", &user()));
    assert!(!verify_basic("Basic YWRtaW4=", &user()));
    assert!(!verify_basic("Basic YWRtaW46c2VjcmV0=", &user()));
    assert!(!verify_basic("Basic /////w==", &user()));
    assert!(!verify_basic("Bearer x", &user()));
    let wide = Credentials { username: "用户".to_string(), password: "密码?>".to_string() };
    assert!(verify_basic("Basic 55So5oi3OuWvhueggT8+", &wide));
    let colon = Credentials { username: "admin:x".to_string(), password: "y".to_string() };
    assert!(!verify_basic("Basic YWRtaW46eDp5", &colon));
    let in_password = Credentials { username: "admin".to_string(), password: "x:y".to_string() };
    assert!(verify_basic("Basic YWRtaW46eDp5", &in_password));
}

#[test]
fn tokens_are_good_for_reading_only() {
    let now = 5_000;
    let token = download_token("k", &user(), now);
    let params = query(&[("token", &token)]);
    assert_eq!(authenticate(None, &user(), "k", "GET", &params, now), Some("admin".to_string()));
    assert_eq!(authenticate(None, &user(), "k", "HEAD", &params, now), Some("admin".to_string()));
    assert_eq!(authenticate(None, &user(), "k", "PUT", &params, now), None);
    assert_eq!(authenticate(None, &user(), "k2", "GET", &params, now), None);
    assert_eq!(
        authenticate(Some("Basic YWRtaW46c2VjcmV0"), &user(), "k", "PUT", &query(&[]), now),
        Some("admin".to_string())
    );
}

#[test]
fn sessions_are_sealed() {
    let json = b"{\"a\":\"??>>\"}";
    let token = encode_multipart_session(json, &user());
    assert_eq!(
        token,
        "eyJhIjoiPz8-PiJ9.e328a6cc2c11a2ea02ed0f199826527018ec93294f7edb48a3eb44b27da9abce"
    );
    assert_eq!(
        multipart_session_signature("eyJhIjoiPz8-PiJ9", &user()),
        "e328a6cc2c11a2ea02ed0f199826527018ec93294f7edb48a3eb44b27da9abce"
    );
    assert_eq!(decode_multipart_session(&token, &user()), Some(json.to_vec()));
    let other = Credentials { username: "admin".to_string(), password: "other".to_string() };
    assert_eq!(decode_multipart_session(&token, &other), None);
    assert_eq!(decode_multipart_session("no dot", &user()), None);
    assert_eq!(decode_multipart_session(&format!("x{token}"), &user()), None);
    let unreadable = format!("!.{}", multipart_session_signature("!", &user()));
    assert_eq!(decode_multipart_session(&unreadable, &user()), None);
}

#[test]
fn sessions_expire_and_have_a_size() {
    let session = |size: u64| MultipartSession {
        key: "k".into(),
        upload_id: "u".into(),
        size,
        expires_at: 100,
    };
    assert!(session_is_usable(&session(1), 100));
    assert!(!session_is_usable(&session(1), 101));
    assert!(!session_is_usable(&session(0), 100));
    assert!(session_is_usable(&session(MULTIPART_PART_SIZE * 10_000), 100));
    assert!(!session_is_usable(&session(MULTIPART_PART_SIZE * 10_000 + 1), 100));
}

#[test]
fn parts_make_up_the_file() {
    for size in [1, 123, MULTIPART_PART_SIZE, MULTIPART_PART_SIZE * 3 - 1] {
        let session =
            MultipartSession { key: "k".into(), upload_id: "u".into(), size, expires_at: 0 };
        let count = multipart_part_count(size);
        let mut sum: u64 = 0;
        for number in 1..=count as u16 {
            sum += multipart_part_length(&session, number).unwrap();
        }
        assert_eq!(sum, size);
        assert_eq!(multipart_part_length(&session, 0), None);
    }
    assert_eq!(multipart_part_count(0), 0);
    assert_eq!(multipart_part_count(u64::MAX), 1_099_511_627_776);
}

#[test]
fn entries_are_sorted_by_type_and_name() {
    let items = vec![file("b.txt", 3, 30), dir("Zoo"), file("A.txt", 1, 30), dir("apple"), file("Ä", 2, 5)];
    let sorted = sort_items(items, SortKey::Name);
    assert_eq!(names(&sorted), ["apple", "Zoo", "A.txt", "b.txt", "Ä"]);
}

#[test]
fn ties_keep_their_order() {
    let items = vec![file("second", 7, 1), file("first", 7, 1), file("SECOND", 6, 1)];
    assert_eq!(names(&sort_items(items, SortKey::Size)), ["second", "first", "SECOND"]);
    let items = vec![file("x", 7, 2), file("y", 7, 1), file("z", 6, 1)];
    assert_eq!(names(&sort_items(items, SortKey::Mtime)), ["z", "x", "y"]);
    let items = vec![file("READ", 0, 1), file("read", 0, 2), file("a", 0, 3)];
    assert_eq!(names(&sort_items(items, SortKey::Name)), ["a", "READ", "read"]);
}

#[test]
fn the_query_decides_the_order() {
    let items = || vec![file("a", 1, 30), file("b", 3, 10), file("c", 2, 20), dir("d")];
    let by = |pairs: &[(&str, &str)]| -> Vec<String> {
        sort_paths(items(), &query(pairs)).into_iter().map(|item| item.name).collect()
    };
    assert_eq!(by(&[]), ["d", "a", "b", "c"]);
    assert_eq!(by(&[("sort", "mtime")]), ["d", "a", "c", "b"]);
    assert_eq!(by(&[("sort", "size")]), ["d", "b", "c", "a"]);
    assert_eq!(by(&[("sort", "size"), ("order", "desc")]), ["a", "c", "b", "d"]);
    assert_eq!(by(&[("sort", "other"), ("order", "asc")]), ["d", "a", "b", "c"]);
}

#[test]
fn ranked_entries_follow_the_given_lower_case() {
    let ranked = |name: &str, lowered: &str| Ranked {
        item: file(name, 0, 0),
        lowered: lowered.to_string(),
    };
    let sorted = sort_ranked(vec![ranked("x", "c"), ranked("y", "a"), ranked("z", "b")], SortKey::Name);
    let order: Vec<String> = sorted.into_iter().map(|entry| entry.item.name).collect();
    assert_eq!(order, ["y", "z", "x"]);
}

#[test]
fn listings_hide_markers_and_the_directory_itself() {
    let page = Listing {
        objects: vec![
            object("docs/", 0, None),
            object("docs/.dufs-directory", 0, None),
            object("docs/a.txt", 12, None),
            object("elsewhere", 1, None),
        ],
        prefixes: vec!["docs/sub/".to_string(), "docs//".to_string()],
        truncated: false,
        cursor: None,
    };
    let items = directory_items("docs/", &page);
    assert_eq!(names(&items), ["sub", "a.txt"]);
    assert!(items[0].is_dir());
    assert!(!items[1].is_dir());
    assert_eq!(items[1].size, 12);
    assert_eq!(items[1].mtime, 1_700_000_000_000);
}

#[test]
fn searches_match_names_without_regard_to_case() {
    assert!(name_matches("Docs/Report.PDF", "docs/report.pdf", "report"));
    assert!(!name_matches("a.txt", "a.txt", "b"));
    assert!(!name_matches(".dufs-directory", ".dufs-directory", "dufs"));
    assert!(!name_matches("deep/er/.dufs-directory", "deep/er/.dufs-directory", "dufs"));
}

#[test]
fn rows_link_to_the_entries() {
    assert_eq!(
        public_share_item_row("share", &dir("a b")),
        "<li><a class=\"name\" href=\"/share/a%20b/\">a b/</a><span class=\"meta\">folder</span></li>"
    );
    assert_eq!(
        public_share_item_row("share/x", &file("1.txt", 0, 7)),
        "<li><a class=\"name\" href=\"/share/x/1%2Etxt\">1.txt</a><span class=\"meta\">7 bytes</span><a class=\"download\" href=\"/share/x/1%2Etxt\" download aria-label=\"Download 1.txt\">Download</a></li>"
    );
}

#[test]
fn share_pages_list_the_directory() {
    let reply = public_share_index("share", vec![file("b.txt", 0, 1), dir("A")], false);
    assert_eq!(reply.status, 200);
    assert_eq!(header(&reply, "cache-control"), Some("no-cache"));
    assert_eq!(header(&reply, "x-content-type-options"), Some("nosniff"));
    assert!(header(&reply, "content-security-policy").unwrap().starts_with("default-src 'none'"));
    let page = body_text(&reply);
    assert_eq!(header(&reply, "content-length"), Some(page.len().to_string().as_str()));
    assert!(page.starts_with("<!doctype html>\n<html lang=\"en\">"));
    assert!(page.contains("Read-only files in <code>/share/</code>"));
    assert!(page.find(">A/</a>").unwrap() < page.find(">b.txt</a>").unwrap());
    assert!(!page.contains("class=\"parent\""));
    assert!(page.ends_with("</ul></main></body></html>"));

    let deeper = public_share_index("share/a/b", vec![], false);
    assert!(body_text(&deeper).contains(
        "<ul><li class=\"parent\"><a class=\"name\" href=\"/share/a/\">../</a><span class=\"meta\">parent folder</span></li></ul>"
    ));
    let empty = public_share_index("share", vec![], true);
    assert!(matches!(empty.body, Body::Empty));
    assert_eq!(
        header(&empty, "content-length"),
        Some(body_text(&public_share_index("share", vec![], false)).len().to_string().as_str())
    );
    assert!(body_text(&public_share_index("share", vec![], false)).contains("This folder is empty."));
}

#[test]
fn share_pages_hold_no_script() {
    let names = ["<script>alert(1)</script>", "<SCRIPT src=x>", "a<", "script", "\"><ScRiPt"];
    let items = || names.iter().flat_map(|name| [file(name, 0, 7), dir(name)]).collect();
    for key in ["share", "share/<script>", "share/a<"] {
        let reply = public_share_index(key, items(), false);
        let page = body_text(&reply);
        assert!(!page.to_lowercase().contains("<script"));
        assert!(page.contains("&lt;script&gt;alert(1)&lt;/script&gt;"));
        let headers = public_share_index(key, items(), true);
        assert_eq!(headers.headers, reply.headers);
        assert!(matches!(headers.body, Body::Empty));
    }
}

#[test]
fn properties_are_written_as_xml() {
    assert_eq!(
        dav_item_xml(&file("a&b.txt", 5, 12), "d/a&b.txt", "Thu, 01 Jan 1970 00:00:00 GMT"),
        "<D:response><D:href>/d/a%26b%2Etxt</D:href><D:propstat><D:prop><D:displayname>a&amp;b.txt</D:displayname><D:getcontentlength>12</D:getcontentlength><D:getlastmodified>Thu, 01 Jan 1970 00:00:00 GMT</D:getlastmodified><D:resourcetype></D:resourcetype></D:prop><D:status>HTTP/1.1 200 OK</D:status></D:propstat></D:response>"
    );
    assert_eq!(
        dav_item_xml(&dir("d"), "d", "unused"),
        "<D:response><D:href>/d/</D:href><D:propstat><D:prop><D:displayname>d</D:displayname><D:getlastmodified></D:getlastmodified><D:resourcetype><D:collection/></D:resourcetype></D:prop><D:status>HTTP/1.1 200 OK</D:status></D:propstat></D:response>"
    );
    let reply = dav_multistatus("<x/>");
    assert_eq!(reply.status, 207);
    assert_eq!(
        body_text(&reply),
        "<?xml version=\"1.0\" encoding=\"utf-8\" ?>\n<D:multistatus xmlns:D=\"DAV:\"><x/></D:multistatus>"
    );
}

#[test]
fn facts_about_pages() {
    let item = file_item("a/b/c.txt", &object("a/b/c.txt", 9, None));
    assert_eq!(item.name, "c.txt");
    assert_eq!(item.size, 9);
    let facts = index_data("a b", vec![file("x", 1, 2)], true, "admin", true);
    assert_eq!(facts.href, "/a%20b");
    assert!(!facts.allow_upload && !facts.allow_delete && facts.allow_search);
    assert!(!facts.allow_archive && facts.dir_exists && facts.auth);
    assert_eq!(facts.user, Some("admin".to_string()));
    let small = edit_data("x.txt", &object("x.txt", 4_194_304, None), "admin", false, false);
    assert!(small.editable && small.allow_upload);
    assert!(small.kind == DataKind::Edit);
    let large = edit_data("x.txt", &object("x.txt", 4_194_305, None), "admin", false, true);
    assert!(!large.editable);
    assert!(large.kind == DataKind::View);
    let typed = edit_data("x.txt", &object("x.txt", 1, Some("image/png")), "admin", false, true);
    assert!(!typed.editable);
}

#[test]
fn the_interface_shows_its_data() {
    let html = interface_html(
        "<link href=\"__ASSETS_PREFIX__index.css\"><script src=\"__ASSETS_PREFIX__index.js\">__INDEX_DATA__",
        b"{}",
    );
    assert_eq!(
        html,
        "<link href=\"/__dufs_wasm_v7__/index.css\"><script src=\"/__dufs_wasm_v7__/index.js\">e30="
    );
    assert_eq!(simple_listing(&vec![dir("d"), file("f", 0, 0)]), "d/\nf\n");
}

#[test]
fn the_service_answers_for_itself() {
    let assets = Assets {
        index_html: "html".to_string(),
        index_css: "css".to_string(),
        index_js: "js".to_string(),
        favicon: vec![1, 2],
    };
    let health = internal_response("DELETE", "/__dufs__/health", &assets).unwrap();
    assert_eq!(health.status, 200);
    assert_eq!(body_text(&health), "{\"status\":\"OK\"}");
    let js = internal_response("GET", "//__dufs_wasm_v7__/index.js", &assets).unwrap();
    assert_eq!(body_text(&js), "js");
    assert_eq!(header(&js, "content-type"), Some("application/javascript; charset=UTF-8"));
    assert_eq!(header(&js, "cache-control"), Some("public, max-age=31536000, immutable"));
    let css = internal_response("GET", "/__dufs_wasm_v7__/index.css", &assets).unwrap();
    assert_eq!(body_text(&css), "css");
    let icon = internal_response("GET", "/__dufs_wasm_v7__/favicon.ico", &assets).unwrap();
    assert!(matches!(icon.body, Body::Bytes(bytes) if bytes == vec![1, 2]));
    let missing = internal_response("GET", "/__dufs_wasm_v7__/other", &assets).unwrap();
    assert_eq!(missing.status, 404);
    assert!(internal_response("HEAD", "/__dufs_wasm_v7__/index.js", &assets).is_none());
    assert!(internal_response("GET", "/file", &assets).is_none());
}

#[test]
fn plain_replies() {
    let reply = text_response(418, "short");
    assert_eq!(reply.status, 418);
    assert_eq!(header(&reply, "content-type"), Some("text/plain; charset=utf-8"));
    assert_eq!(body_text(&reply), "short");
    assert_eq!(failure_response().status, 500);
    let head = fixed_response(200, "text/html", b"12345".to_vec(), true);
    assert_eq!(header(&head, "content-length"), Some("5"));
    assert!(matches!(head.body, Body::Empty));
    let json = json_response(b"[]".to_vec());
    assert_eq!(header(&json, "content-type"), Some("application/json; charset=utf-8"));
    assert_eq!(options_response().status, 200);
    assert_eq!(header(&options_response(), "dav"), Some("1, 2, 3"));
    let refused = unauthorized_response();
    assert_eq!(refused.status, 401);
    assert_eq!(
        header(&refused, "www-authenticate"),
        Some("Basic realm=\"DUFS\", charset=\"UTF-8\"")
    );
    assert!(header(&refused, "allow").unwrap().contains("PROPFIND"));
    assert_eq!(public_share_method_not_allowed().status, 405);
    assert_eq!(header(&public_share_method_not_allowed(), "allow"), Some("GET, HEAD"));
    let moved = public_share_redirect("/share/");
    assert_eq!((moved.status, header(&moved, "location")), (308, Some("/share/")));
}

#[test]
fn locks_lock_nothing() {
    let reply = handle_lock("a b", 77);
    assert_eq!(reply.status, 200);
    assert_eq!(header(&reply, "lock-token"), Some("<opaquelocktoken:dufs-r2-77>"));
    assert_eq!(
        body_text(&reply),
        "<?xml version=\"1.0\" encoding=\"utf-8\"?>\n<D:prop xmlns:D=\"DAV:\"><D:lockdiscovery><D:activelock>\n<D:locktoken><D:href>opaquelocktoken:dufs-r2-77</D:href></D:locktoken>\n<D:lockroot><D:href>/a%20b</D:href></D:lockroot>\n</D:activelock></D:lockdiscovery></D:prop>"
    );
    assert!(body_text(&proppatch_response("x")).contains(
        "<D:response><D:href>/x</D:href><D:propstat><D:prop></D:prop><D:status>HTTP/1.1 403 Forbidden</D:status></D:propstat></D:response>"
    ));
}

fn conditions(none: Option<&str>, some: Option<&str>, range: Option<&str>) -> Conditions {
    Conditions {
        if_none_match: none.map(|v| v.to_string()),
        if_match: some.map(|v| v.to_string()),
        range: range.map(|v| v.to_string()),
    }
}

fn status_of(step: Step) -> u16 {
    match step {
        Step::Reply(reply) => reply.status,
        _ => panic!("no reply"),
    }
}

#[test]
fn conditions_come_before_the_contents() {
    let info = object("k.txt", 10, None);
    let ask = |c: &Conditions| file_response("k.txt", &info, c, true, false);
    assert_eq!(status_of(ask(&conditions(Some("*"), None, None))), 304);
    assert_eq!(status_of(ask(&conditions(Some("\"x\", \"e1\" "), None, None))), 304);
    assert_eq!(status_of(ask(&conditions(Some("\"x\""), None, None))), 200);
    assert_eq!(status_of(ask(&conditions(None, Some("\"x\""), None))), 412);
    assert_eq!(status_of(ask(&conditions(None, Some("\"x\",\"e1\""), None))), 200);
    assert_eq!(status_of(ask(&conditions(None, Some("*"), None))), 200);
    assert_eq!(status_of(ask(&conditions(None, None, Some("bytes=2-3")))), 206);
    match ask(&conditions(None, None, Some("bytes=20-"))) {
        Step::Reply(reply) => {
            assert_eq!(reply.status, 416);
            assert_eq!(header(&reply, "content-range"), Some("bytes */10"));
        },
        _ => panic!("no reply"),
    }
}

#[test]
fn parts_of_files_are_opened() {
    let info = object("share/k.html", 10, None);
    match file_response("share/k.html", &info, &conditions(None, None, Some("bytes=-4")), false, true) {
        Step::Ask(Action::Get { key, range }, Task::Open(reply)) => {
            assert_eq!(key, "share/k.html");
            assert_eq!(range, Some((6, 4)));
            assert_eq!(reply.status, 206);
            assert_eq!(header(&reply, "content-range"), Some("bytes 6-9/10"));
            assert_eq!(header(&reply, "content-length"), Some("4"));
            assert_eq!(header(&reply, "content-type"), Some("text/html; charset=utf-8"));
            assert_eq!(
                header(&reply, "content-disposition"),
                Some("attachment; filename=\"k.html\"")
            );
            assert_eq!(
                header(&reply, "content-security-policy"),
                Some("sandbox; default-src 'none'; frame-ancestors 'none'")
            );
            assert_eq!(header(&reply, "etag"), Some("\"e1\""));
        },
        _ => panic!("the object is not opened"),
    }
}

#[test]
fn texts_are_taken_apart() {
    assert_eq!(split("a,,b", ','), ["a", "", "b"]);
    assert_eq!(split_once("a=b=c", '='), Some(("a".to_string(), "b=c".to_string())));
    assert_eq!(last_part("a/b/c", '/'), "c");
    assert_eq!(parent_part("a/b/c", '/'), Some("a/b".to_string()));
    assert_eq!(parent_part("abc", '/'), None);
    assert_eq!(replace_text("aXbXX", "X", "--"), "a--b----");
    assert_eq!(replace_text("aaa", "aa", "b"), "ba");
    assert_eq!(trim(" \t\u{3000}x y\n"), "x y");
    assert_eq!(trim_start_char("//a/", '/'), "a/");
    assert_eq!(trim_end_char("a//", '/'), "a");
    assert!(contains_text("hello", "ell"));
    assert!(contains_text("hello", ""));
    assert!(!contains_text("hello", "elk"));
    assert!(eq_ignore_ascii_case("ÄbC", "Äbc"));
    assert!(!eq_ignore_ascii_case("Ä", "ä"));
}
