use chrono::Datelike;
use lazydeck::codec::{base64_decode, base64_encode};
use lazydeck::codec::osc52_sequence;
use lazydeck::codec::{url_decode, url_encode};
use lazydeck::page::{Page, PageEntry};
use lazydeck::cache::{hex_file_name, namespace_to_filename, refresh_cache_entry, CacheEntry, NamespaceCache};
use lazydeck::hash::md5_hex;
use lazydeck::http::{
    base_url, encode_component, frame_response, parse_request, reason_phrase, resolver_name_ok,
    resolver_url, route, simple_response, HttpResponseData, RequestError, Route,
};
use lazydeck::input_view::{InputDialogState, InputDialogWidget};
use lazydeck::secrets::{self, SecretStore};
use lazydeck::style::align_columns;
use lazydeck::text_map::TextMap;
use lazydeck::time::{compact_layout, decimal_string, parse_time, relative_phrase};

#[test]
fn cache_namespace_filename_is_hex_encoded() {
    assert_eq!(namespace_to_filename("plugin/demo").unwrap(), "706c7567696e2f64656d6f.json");
}

#[test]
fn cache_empty_namespace_is_rejected() {
    assert!(namespace_to_filename("").is_err());
}

#[test]
fn refresh_cache_entry_updates_expiration_when_enabled() {
    let mut entry = CacheEntry {
        value: serde_json::Value::String("demo".to_string()),
        expires: Some(10),
        ttl: Some(30),
        refresh_on_get: true,
    };

    assert!(refresh_cache_entry(&mut entry, 100));
    assert_eq!(entry.expires, Some(130));
}

#[test]
fn refresh_cache_entry_skips_disabled_entries() {
    let mut entry = CacheEntry {
        value: serde_json::Value::String("demo".to_string()),
        expires: Some(10),
        ttl: Some(30),
        refresh_on_get: false,
    };

    assert!(!refresh_cache_entry(&mut entry, 100));
    assert_eq!(entry.expires, Some(10));
}

#[test]
fn refresh_saturates_at_the_largest_time() {
    let mut entry = CacheEntry { value: 1u8, expires: None, ttl: Some(u64::MAX), refresh_on_get: true };
    assert!(refresh_cache_entry(&mut entry, 5));
    assert_eq!(entry.expires, Some(u64::MAX));
}

#[test]
fn cache_get_after_set_returns_value_until_it_expires() {
    let mut cache: NamespaceCache<String> = NamespaceCache::loaded(TextMap::new());
    cache.set("k".to_string(), "v".to_string(), Some(10), false, 100);
    assert!(cache.dirty);
    assert_eq!(cache.value("k").map(|s| s.as_str()), Some("v"));
    assert!(cache.touch("k", 109));
    assert!(!cache.touch("k", 110));
    cache.delete("k");
    assert!(cache.value("k").is_none());
}

#[test]
fn secrets_namespace_filename_is_hex_encoded() {
    let filename = secrets::namespace_to_filename("github.token").unwrap();
    assert_eq!(filename, "6769746875622e746f6b656e.json");
}

#[test]
fn secrets_empty_namespace_is_rejected() {
    let err = secrets::namespace_to_filename("").unwrap_err();
    assert!(err.message().contains("namespace"));
}

#[test]
fn secret_store_gives_back_what_was_set() {
    let mut store = SecretStore::new();
    store.set("token".to_string(), "abc".to_string()).unwrap();
    assert_eq!(store.get("token").unwrap(), Some("abc".to_string()));
    assert!(store.get("").is_err());
    store.delete("token").unwrap();
    assert_eq!(store.get("token").unwrap(), None);
    assert!(store.is_empty());
}

#[test]
fn hex_file_name_encodes_utf8_bytes() {
    assert_eq!(hex_file_name("搜"), "e6909c.json");
}

#[test]
fn md5_hashes_lua_string_bytes() {
    assert_eq!(md5_hex(b"hello"), "5d41402abc4b2a76b9719d911017c592");
    assert_eq!(md5_hex(b""), "d41d8cd98f00b204e9800998ecf8427e");
}

#[test]
fn test_time_format_relative_past() {
    let now: i64 = 1_700_000_000;

    assert_eq!(relative_phrase(now - now), "1 minute ago");
    assert_eq!(relative_phrase((now - 47 * 60) - now), "47 minutes ago");
    assert_eq!(relative_phrase((now - 60 * 60) - now), "1 hour ago");
    assert_eq!(relative_phrase((now - 2 * 60 * 60) - now), "2 hours ago");
    assert_eq!(relative_phrase((now - 24 * 60 * 60) - now), "yesterday");
    assert_eq!(relative_phrase((now - 2 * 24 * 60 * 60) - now), "2 days ago");
    assert_eq!(relative_phrase((now - 8 * 24 * 60 * 60) - now), "last week");
    assert_eq!(relative_phrase((now - 14 * 24 * 60 * 60) - now), "2 weeks ago");
    assert_eq!(relative_phrase((now - 35 * 24 * 60 * 60) - now), "last month");
}

#[test]
fn test_time_format_relative_future() {
    let now: i64 = 1_700_000_000;

    assert_eq!(relative_phrase((now + 47 * 60) - now), "in 47 minutes");
    assert_eq!(relative_phrase((now + 60 * 60) - now), "in 1 hour");
    assert_eq!(relative_phrase((now + 2 * 60 * 60) - now), "in 2 hours");
    assert_eq!(relative_phrase((now + 24 * 60 * 60) - now), "tomorrow");
    assert_eq!(relative_phrase((now + 2 * 24 * 60 * 60) - now), "in 2 days");
    assert_eq!(relative_phrase((now + 8 * 24 * 60 * 60) - now), "next week");
    assert_eq!(relative_phrase((now + 14 * 24 * 60 * 60) - now), "in 2 weeks");
    assert_eq!(relative_phrase((now + 35 * 24 * 60 * 60) - now), "next month");
}

#[test]
fn relative_phrase_handles_extremes() {
    assert_eq!(relative_phrase(i64::MIN).ends_with(" ago"), true);
    assert_eq!(relative_phrase(i64::MAX).starts_with("in "), true);
}

#[test]
fn test_time_parse_iso8601() {
    let ts = parse_time("2023-12-25T15:30:45Z").unwrap();
    assert!(ts > 1700000000);
    assert!(ts < 1800000000);

    let ts = parse_time("2023-12-25T15:30:45+08:00").unwrap();
    assert!(ts > 1700000000);

    let ts_ms = parse_time("2023-12-25T15:30:45.123Z").unwrap();
    assert!(ts_ms > 1700000000);

    let ts_date = parse_time("2023-12-25").unwrap();
    assert!(ts_date > 1700000000);
}

#[test]
fn test_time_parse_himalaya_formats() {
    let formats = ["2026-02-16 18:09+08:00", "2026-02-16T18:09:00+08:00"];
    for fmt in &formats {
        let ts = parse_time(fmt);
        assert!(ts.is_some(), "Failed to parse format: {}", fmt);
        let timestamp = ts.unwrap();
        assert!(timestamp > 1700000000, "Timestamp too early for format: {}", fmt);
        assert!(timestamp < 2000000000, "Timestamp too late for format: {}", fmt);
    }
}

#[test]
fn test_time_parse_invalid() {
    assert!(parse_time("invalid-date").is_none());
}

#[test]
fn time_parse_gives_exact_utc_seconds() {
    assert_eq!(parse_time("2023-01-01T00:00:00Z"), Some(1672531200));
    assert_eq!(parse_time("2023-01-01"), Some(1672531200));
    assert_eq!(parse_time("2023-01-01T08:00:00+08:00"), Some(1672531200));
}

#[test]
fn compact_layout_picks_by_day_and_year() {
    assert_eq!(compact_layout(true, true), "%H:%M");
    assert_eq!(compact_layout(false, true), "%m/%d");
    assert_eq!(compact_layout(false, false), "%Y/%m");
}

#[test]
fn decimal_string_spells_numbers() {
    assert_eq!(decimal_string(0), "0");
    assert_eq!(decimal_string(1234567890), "1234567890");
}

fn rows(cells: &[&[&str]]) -> Vec<Vec<String>> {
    cells.iter().map(|r| r.iter().map(|c| c.to_string()).collect()).collect()
}

#[test]
fn test_align_columns() {
    let mut lines = rows(&[&["foo", "123", "A"], &["barbaz", "4", "BC"], &["qux", "567890", "D E F"]]);
    align_columns(&mut lines);
    assert_eq!(lines[0][0], "foo   ");
    assert_eq!(lines[1][1], "4     ");
    assert_eq!(lines[2][2], "D E F");
}

#[test]
fn align_columns_pads_the_last_column_too() {
    let mut lines = rows(&[&["foo", "123", "A"], &["barbaz", "4", "BC"], &["qux", "567890", "D E F"]]);
    align_columns(&mut lines);
    assert_eq!(lines[0], vec!["foo   ", "123   ", "A    "]);
    assert_eq!(lines[1], vec!["barbaz", "4     ", "BC   "]);
    assert_eq!(lines[2], vec!["qux   ", "567890", "D E F"]);
    let mut two = rows(&[&["a", "x"], &["bb", "yyy"]]);
    align_columns(&mut two);
    assert_eq!(two, vec![vec!["a ", "x  "], vec!["bb", "yyy"]]);
}

#[test]
fn align_columns_pads_short_rows_by_their_own_columns() {
    let mut lines = rows(&[&["a"], &["bbb", "c"], &["姓", "dd"]]);
    align_columns(&mut lines);
    assert_eq!(lines, vec![vec!["a  "], vec!["bbb", "c "], vec!["姓 ", "dd"]]);
}

#[test]
fn test_align_columns_unicode() {
    let mut lines = rows(&[&["姓名", "年龄", "描述"], &["张三", "25", "软件工程师"], &["李四", "30", "系统架构师"]]);
    align_columns(&mut lines);
    assert_eq!(lines[0][0], "姓名");
    assert_eq!(lines[1][1], "25  ");
    assert_eq!(lines[2][2], "系统架构师");
}

#[test]
fn parse_request_decodes_path_and_query() {
    let request =
        parse_request(b"GET /r/netease-song?id=123&title=hello%20world HTTP/1.1\r\nHost: localhost\r\n\r\n")
            .unwrap();
    assert_eq!(request.method, "GET");
    assert_eq!(request.path, "/r/netease-song");
    assert_eq!(request.query.get("id").map(String::as_str), Some("123"));
    assert_eq!(request.query.get("title").map(String::as_str), Some("hello world"));
    assert_eq!(request.headers.get("host").map(String::as_str), Some("localhost"));
}

#[test]
fn parse_request_decodes_utf8_and_replaces_invalid_bytes() {
    let request = parse_request(b"GET /caf%C3%A9?q=%E2%9C%93&bad=%FF HTTP/1.1\r\n\r\n").unwrap();
    assert_eq!(request.path, "/caf\u{e9}");
    assert_eq!(request.query.get("q").map(String::as_str), Some("\u{2713}"));
    assert_eq!(request.query.get("bad").map(String::as_str), Some("\u{fffd}"));
}

#[test]
fn parse_request_reports_each_error() {
    assert_eq!(parse_request(b"\xff\r\n\r\n").err(), Some(RequestError::NotUtf8));
    assert_eq!(parse_request(b"GET / HTTP/1.1\r\n").err(), Some(RequestError::Incomplete));
    assert_eq!(parse_request(b"\r\n\r\n").err(), Some(RequestError::MissingMethod));
    assert_eq!(parse_request(b"GET\r\n\r\n").err(), Some(RequestError::MissingTarget));
    assert_eq!(parse_request(b"GET /\r\n\r\n").err(), Some(RequestError::MissingVersion));
    assert_eq!(RequestError::Incomplete.message(), "incomplete http request");
}

#[test]
fn simple_response_sets_plain_text_body() {
    let response = simple_response(404, "missing");
    assert_eq!(response.status, 404);
    assert_eq!(response.body, b"missing");
    assert!(response.headers.iter().any(|(key, _)| key.eq_ignore_ascii_case("content-type")));
}

#[test]
fn frame_response_adds_length_and_connection() {
    let data = frame_response(simple_response(200, "ok"));
    let text = String::from_utf8(data).unwrap();
    assert_eq!(
        text,
        "HTTP/1.1 200 OK\r\nContent-Type: text/plain; charset=utf-8\r\nContent-Length: 2\r\nConnection: close\r\n\r\nok"
    );
    let given = HttpResponseData {
        status: 204,
        headers: vec![("content-length".to_string(), "0".to_string()), ("Connection".to_string(), "keep".to_string())],
        body: Vec::new(),
    };
    let text = String::from_utf8(frame_response(given)).unwrap();
    assert_eq!(text, "HTTP/1.1 204 No Content\r\ncontent-length: 0\r\nConnection: keep\r\n\r\n");
}

#[test]
fn routes_and_reason_phrases() {
    assert_eq!(route("/health"), Route::Health);
    assert_eq!(route("/r/song"), Route::Resolver("song".to_string()));
    assert_eq!(route("/r/"), Route::MissingName);
    assert_eq!(route("/other"), Route::NoRoute);
    assert_eq!(reason_phrase(504), "Gateway Timeout");
    assert_eq!(reason_phrase(299), "OK");
}

#[test]
fn resolver_urls_are_encoded() {
    assert_eq!(encode_component("a b&c/d"), "a%20b%26c%2Fd");
    assert_eq!(encode_component("搜"), "%E6%90%9C");
    assert_eq!(base_url("127.0.0.1", 8080), "http://127.0.0.1:8080");
    assert_eq!(
        resolver_url("127.0.0.1", 80, "song list", &vec![("id".to_string(), "1 2".to_string()), ("x".to_string(), "y".to_string())]),
        "http://127.0.0.1:80/r/song%20list?id=1%202&x=y"
    );
    assert_eq!(resolver_url("h", 1, "n", &Vec::new()), "http://h:1/r/n");
    assert!(resolver_name_ok(" a "));
    assert!(!resolver_name_ok("   "));
}

#[test]
fn input_dialog_state_backspace_handles_utf8() {
    let mut state = InputDialogState::new("Search", "keyword");
    state.insert_char('搜');
    state.insert_char('索');

    state.backspace();
    assert_eq!(state.text, "搜");
    assert_eq!(state.cursor_position, '搜'.len_utf8());
}

#[test]
fn visible_window_keeps_cursor_at_right_edge_when_input_overflows() {
    let text = "abcdef";
    let (_, visible, cursor_offset) = InputDialogWidget::visible_window(text, text.len(), 3);

    assert_eq!(visible, "ef");
    assert_eq!(cursor_offset, 2);
}

#[test]
fn visible_window_handles_wide_characters_and_edges() {
    assert_eq!(InputDialogWidget::visible_window("", 0, 5), (0, String::new(), 0));
    assert_eq!(InputDialogWidget::visible_window("abc", 3, 0), (0, String::new(), 0));
    assert_eq!(InputDialogWidget::visible_window("abc", 0, 10), (0, "abc".to_string(), 0));
    let text = "搜索引擎";
    let (start, visible, offset) = InputDialogWidget::visible_window(text, text.len(), 5);
    assert_eq!(visible, "引擎");
    assert_eq!(start, 6);
    assert_eq!(offset, 4);
    let (start, visible, offset) = InputDialogWidget::visible_window("abcdef", 0, 3);
    assert_eq!((start, visible.as_str(), offset), (0, "abc", 0));
}

#[test]
fn input_state_cursor_moves_by_characters() {
    let mut state = InputDialogState::from_filter_input("a搜b");
    assert_eq!(state.cursor_position, 5);
    state.cursor_left();
    assert_eq!(state.cursor_position, 4);
    state.cursor_left();
    assert_eq!(state.cursor_position, 1);
    state.delete();
    assert_eq!(state.text, "ab");
    state.cursor_to_start();
    state.cursor_right();
    assert_eq!(state.cursor_position, 1);
    state.cursor_to_end();
    assert_eq!(state.cursor_position, 2);
    state.clear();
    assert_eq!(state.text, "");
}

#[test]
fn base64_round_trips_and_rejects_garbage() {
    assert_eq!(base64_encode(b"hello"), "aGVsbG8=");
    assert_eq!(base64_decode("aGVsbG8=").unwrap(), b"hello".to_vec());
    let err = base64_decode("a$").unwrap_err();
    assert!(err.message().starts_with("Base64 decode error: "));
}

#[test]
fn osc52_wraps_base64_text() {
    assert_eq!(osc52_sequence("hi"), "\x1b]52;c;aGk=\x07");
}

#[test]
fn url_encoding_keeps_only_letters_and_digits() {
    assert_eq!(url_encode("foo bar?"), "foo%20bar%3F");
    assert_eq!(url_encode("a-b_c"), "a%2Db%5Fc");
    assert_eq!(url_decode("foo%20bar%3F"), Some("foo bar?".to_string()));
    assert_eq!(url_decode("%FF"), None);
}

#[test]
fn page_filter_ignores_case() {
    let mut page: Page<u8> = Page::new();
    page.list = vec![
        PageEntry { key: "Alpha".to_string(), display_text: "Alpha".to_string(), data: 0 },
        PageEntry { key: "beta".to_string(), display_text: "BETA".to_string(), data: 1 },
    ];
    page.list_filter = "ALP".to_string();
    page.apply_filter();
    assert_eq!(page.filtered, vec![0]);
    page.list_filter = String::new();
    page.apply_filter();
    assert_eq!(page.filtered, vec![0, 1]);
}

/// The compact form of a local time, as the plugin API formats it.
fn compact(timestamp: i64) -> String {
    let now = chrono::Local::now();
    let t = chrono::DateTime::<chrono::Utc>::from_timestamp(timestamp, 0).unwrap().with_timezone(&chrono::Local);
    let layout = compact_layout(t.date_naive() == now.date_naive(), t.year() == now.year());
    t.format(layout).to_string()
}

#[test]
fn test_time_format_compact_today() {
    let formatted = compact(chrono::Local::now().timestamp());
    assert!(formatted.matches(char::is_numeric).count() <= 5);
    assert!(formatted.len() == 5);
    assert!(formatted.contains(':'));
}

#[test]
fn test_time_format_compact_this_year() {
    let earlier = chrono::Local::now() - chrono::Duration::days(30);
    let formatted = compact(earlier.timestamp());
    assert!(formatted.len() == 5);
    assert!(formatted.contains('/'));
    assert!(!formatted.contains(':'));
}

#[test]
fn test_time_format_compact_previous_year() {
    let last_year = chrono::Local::now() - chrono::Duration::days(400);
    let formatted = compact(last_year.timestamp());
    assert!(formatted.len() == 7);
    assert!(formatted.contains('/'));
    assert!(!formatted.contains(':'));
}

#[test]
fn test_time_format_relative_via_lua_api() {
    let now = chrono::Utc::now().timestamp();
    let timestamp = (chrono::Utc::now() - chrono::Duration::minutes(47)).timestamp();
    assert_eq!(relative_phrase(timestamp - now), "47 minutes ago");
}

#[test]
fn test_text_preserves_empty_string_as_blank_line() {
    let lines = lazydeck::style::text_lines("");
    assert_eq!(lines.len(), 1);
    assert_eq!(lines[0], "");
}

#[test]
fn text_pieces_split_at_line_endings() {
    assert_eq!(lazydeck::style::text_lines("a\nb\r\nc"), vec!["a", "b", "c"]);
    assert_eq!(lazydeck::style::text_lines("a\n"), vec!["a"]);
    assert_eq!(lazydeck::style::text_lines("\n\n"), vec!["", ""]);
}
