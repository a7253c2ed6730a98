use cookiejar::codec::{
    from_cookie_header, from_cookie_segments, serialize, split_header, EXPIRES_MAX, EXPIRES_MIN,
};
use cookiejar::record::{CookieAttributes, CookieRecord};
use cookiejar::response::{respond_with_jar, set_cookie_lines, Response, STATUS_OK};

fn text(s: &str) -> String {
    s.to_string()
}

fn record(name: &str, value: &str, path: &str, secure: bool, http_only: bool, expires: Option<i64>) -> CookieRecord {
    CookieRecord { name: text(name), value: text(value), path: text(path), secure, http_only, expires }
}

#[test]
fn split_cuts_at_every_separator() {
    assert_eq!(split_header("a=1; b=2"), vec![text("a=1"), text("b=2")]);
    assert_eq!(split_header("a=1; b=2; c=3"), vec![text("a=1"), text("b=2"), text("c=3")]);
}

#[test]
fn split_of_empty_header_is_one_empty_segment() {
    assert_eq!(split_header(""), vec![text("")]);
}

#[test]
fn split_without_separator_is_the_whole_header() {
    assert_eq!(split_header("a=1"), vec![text("a=1")]);
    assert_eq!(split_header("a=1;b=2"), vec![text("a=1;b=2")]);
    assert_eq!(split_header(";"), vec![text(";")]);
    assert_eq!(split_header(" "), vec![text(" ")]);
}

#[test]
fn split_keeps_empty_segments() {
    assert_eq!(split_header("; "), vec![text(""), text("")]);
    assert_eq!(split_header("a=1; "), vec![text("a=1"), text("")]);
    assert_eq!(split_header("; a=1"), vec![text(""), text("a=1")]);
    assert_eq!(split_header("; ; "), vec![text(""), text(""), text("")]);
}

#[test]
fn split_handles_doubled_characters() {
    assert_eq!(split_header("a;; b"), vec![text("a;"), text("b")]);
    assert_eq!(split_header("a;  b"), vec![text("a"), text(" b")]);
    assert_eq!(split_header("a ;b"), vec![text("a ;b")]);
}

#[test]
fn split_counts_characters_not_bytes() {
    assert_eq!(split_header("é=ü; ß=ø"), vec![text("é=ü"), text("ß=ø")]);
}

#[test]
fn split_agrees_with_std() {
    for header in ["", "a", "; ", "a; b", ";; ", " ; ", "a=1; b=2; ", "; ; ; x", "x;y; z ;w"] {
        let expected: Vec<String> = header.split("; ").map(|s| s.to_string()).collect();
        assert_eq!(split_header(header), expected);
    }
}

#[test]
fn split_is_undone_by_join() {
    for header in ["", "a=1", "a=1; b=2", "; ", "a;; b", "x; ; y; ", ";  ;", "é; ü"] {
        let segments = split_header(header);
        assert!(!segments.is_empty());
        assert!(segments.iter().all(|segment| !segment.contains("; ")));
        assert_eq!(segments.join("; "), header);
    }
}

#[test]
fn segments_are_parsed_one_by_one() {
    let jar = from_cookie_segments(vec![text("a=1"), text("nothing"), text("b=2; c=3"), text("a=4")]);
    assert_eq!(jar.get("a"), Some(text("1")));
    assert_eq!(jar.get("b"), Some(text("2")));
    assert_eq!(jar.get("c"), None);
    assert!(jar.delta().is_empty());
}

#[test]
fn serialize_writes_flags_path_and_expiry() {
    let line = serialize(&record("n2", "vvv", "/", false, true, Some(0)));
    assert_eq!(line, Some(text("n2=vvv; HttpOnly; Path=/; Expires=Thu, 01 Jan 1970 00:00:00 GMT")));
}

#[test]
fn serialize_writes_a_later_date() {
    let line = serialize(&record("a", "b", "/", false, false, Some(1_700_000_000)));
    assert_eq!(line, Some(text("a=b; Path=/; Expires=Tue, 14 Nov 2023 22:13:20 GMT")));
}

#[test]
fn serialize_emits_session_cookie() {
    let line = serialize(&record("a", "1", "/", false, false, None));
    assert_eq!(line, Some(text("a=1; Path=/")));
}

#[test]
fn serialize_writes_secure_after_http_only() {
    let line = serialize(&record("a", "1", "/app", true, true, None));
    assert_eq!(line, Some(text("a=1; HttpOnly; Secure; Path=/app")));
    let line = serialize(&record("a", "1", "/app", true, false, None));
    assert_eq!(line, Some(text("a=1; Secure; Path=/app")));
}

#[test]
fn serialize_keeps_empty_value_and_path() {
    assert_eq!(serialize(&record("a", "", "", false, false, None)), Some(text("a=; Path=")));
}

#[test]
fn serialize_of_tombstone_is_expired() {
    let line = serialize(&CookieRecord::tombstone(text("gone")));
    assert_eq!(line, Some(text("gone=; HttpOnly; Path=/; Expires=Thu, 01 Jan 1970 00:00:00 GMT")));
}

#[test]
fn serialize_refuses_control_characters() {
    assert_eq!(serialize(&record("a", "b\nc", "/", false, false, None)), None);
    assert_eq!(serialize(&record("a\r", "b", "/", false, false, None)), None);
    assert_eq!(serialize(&record("a", "b", "/\u{7f}", false, false, None)), None);
    assert_eq!(serialize(&record("a", "b\u{0}", "/", false, false, None)), None);
}

#[test]
fn serialize_accepts_tab_and_text_beyond_ascii() {
    assert_eq!(serialize(&record("a", "b\tc", "/", false, false, None)), Some(text("a=b\tc; Path=/")));
    assert_eq!(serialize(&record("a", "grüße", "/", false, false, None)), Some(text("a=grüße; Path=/")));
}

#[test]
fn serialize_refuses_expiry_outside_the_calendar() {
    assert_eq!(serialize(&record("a", "1", "/", false, false, Some(EXPIRES_MAX + 1))), None);
    assert_eq!(serialize(&record("a", "1", "/", false, false, Some(EXPIRES_MIN - 1))), None);
    assert_eq!(serialize(&record("a", "1", "/", false, false, Some(i64::MAX))), None);
    assert_eq!(serialize(&record("a", "1", "/", false, false, Some(i64::MIN))), None);
}

#[test]
fn serialize_writes_the_first_and_the_last_second() {
    assert_eq!(
        serialize(&record("a", "1", "/", false, false, Some(EXPIRES_MAX))),
        Some(text("a=1; Path=/; Expires=Fri, 31 Dec 9999 23:59:59 GMT"))
    );
    assert_eq!(
        serialize(&record("a", "1", "/", false, false, Some(EXPIRES_MIN))),
        Some(text("a=1; Path=/; Expires=Mon, 01 Jan 1 00:00:00 GMT"))
    );
    assert_eq!(
        serialize(&record("a", "1", "/", false, false, Some(-1))),
        Some(text("a=1; Path=/; Expires=Wed, 31 Dec 1969 23:59:59 GMT"))
    );
}

#[test]
fn lines_drop_what_cannot_be_written() {
    let entries = vec![
        record("a", "1", "/", false, false, None),
        record("bad", "x\ny", "/", false, false, None),
        record("late", "1", "/", false, false, Some(i64::MAX)),
        record("b", "2", "/", true, false, None),
    ];
    assert_eq!(
        set_cookie_lines(&entries),
        (vec![text("a=1; Path=/"), text("b=2; Secure; Path=/")], vec![text("bad"), text("late")])
    );
    assert_eq!(set_cookie_lines(&Vec::new()), (Vec::<String>::new(), Vec::<String>::new()));
}

#[test]
fn response_carries_body_and_delta() {
    let mut jar = from_cookie_header(text("a=1; b=2"));
    jar.set(text("c"), text("3"), CookieAttributes::session());
    jar.remove("a");
    let response = respond_with_jar(&jar, text("{\"data\":1}"));
    assert_eq!(
        response,
        Response {
            status: 200,
            set_cookie: vec![
                text("c=3; HttpOnly; Path=/"),
                text("a=; HttpOnly; Path=/; Expires=Thu, 01 Jan 1970 00:00:00 GMT"),
            ],
            dropped: vec![],
            body: text("{\"data\":1}"),
        }
    );
    assert_eq!(STATUS_OK, 200);
}

#[test]
fn response_of_untouched_jar_sets_no_cookie() {
    let jar = from_cookie_header(text("a=1; b=2"));
    let response = respond_with_jar(&jar, text("body"));
    assert_eq!(response.status, 200);
    assert!(response.set_cookie.is_empty());
    assert_eq!(response.body, "body");
}

#[test]
fn response_emits_session_cookies_too() {
    let mut jar = from_cookie_header(text(""));
    jar.set(text("s"), text("1"), CookieAttributes::session());
    jar.set(text("p"), text("2"), CookieAttributes::defaults_at(0));
    let response = respond_with_jar(&jar, text(""));
    assert_eq!(
        response.set_cookie,
        vec![
            text("s=1; HttpOnly; Path=/"),
            text("p=2; HttpOnly; Path=/; Expires=Fri, 01 Jan 1971 00:00:00 GMT"),
        ]
    );
}

#[test]
fn response_drops_one_bad_cookie_and_keeps_the_rest() {
    let mut jar = from_cookie_header(text(""));
    jar.set(text("ok"), text("1"), CookieAttributes::session());
    jar.set(text("bad"), text("line\nbreak"), CookieAttributes::session());
    jar.set(text("fine"), text("2"), CookieAttributes::session());
    let response = respond_with_jar(&jar, text("x"));
    assert_eq!(response.set_cookie, vec![text("ok=1; HttpOnly; Path=/"), text("fine=2; HttpOnly; Path=/")]);
    assert_eq!(response.dropped, vec![text("bad")]);
    assert_eq!(response.body, "x");
}

#[test]
fn response_with_failure_in_body_still_sets_cookies() {
    let mut jar = from_cookie_header(text("n2=old"));
    jar.set(text("n2"), text("vvv"), CookieAttributes::defaults_at(0));
    let body = text("{\"data\":null,\"errors\":[{\"message\":\"store unavailable\"}]}");
    let response = respond_with_jar(&jar, body.clone());
    assert_eq!(response.status, 200);
    assert_eq!(response.body, body);
    assert_eq!(
        response.set_cookie,
        vec![text("n2=vvv; HttpOnly; Path=/; Expires=Fri, 01 Jan 1971 00:00:00 GMT")]
    );
    assert!(response.dropped.is_empty());
}
