use cookiejar::codec::{from_cookie_header, get_cookie_jar};
use cookiejar::handler::{get_cookie, set_cookie, QueryRoot};
use cookiejar::jar::CookieJar;
use cookiejar::record::{CookieAttributes, CookieRecord, DEFAULT_LIFETIME_SECS, TOMBSTONE_EXPIRES};
use std::time::{SystemTime, UNIX_EPOCH};

fn text(s: &str) -> String {
    s.to_string()
}

fn now_secs() -> i64 {
    SystemTime::now().duration_since(UNIX_EPOCH).unwrap().as_secs() as i64
}

fn plain(path: &str, secure: bool, http_only: bool, expires: Option<i64>) -> CookieAttributes {
    CookieAttributes { path: text(path), secure, http_only, expires }
}

#[test]
fn parsed_header_reports_nothing() {
    let jar = from_cookie_header(text("a=1; b=2"));
    assert_eq!(jar.get("a"), Some(text("1")));
    assert_eq!(jar.get("b"), Some(text("2")));
    assert!(jar.delta().is_empty());
}

#[test]
fn absent_header_gives_empty_jar() {
    let jar = get_cookie_jar(None);
    assert_eq!(jar.get("a"), None);
    assert!(!jar.contains("a"));
    assert!(jar.delta().is_empty());
}

#[test]
fn present_header_is_parsed_by_get_cookie_jar() {
    let jar = get_cookie_jar(Some(text("sid=abc; theme=dark")));
    assert_eq!(get_cookie(&jar, text("sid")), Some(text("abc")));
    assert_eq!(get_cookie(&jar, text("theme")), Some(text("dark")));
    assert_eq!(get_cookie(&jar, text("other")), None);
    assert!(jar.delta().is_empty());
}

#[test]
fn malformed_segments_are_skipped() {
    let jar = from_cookie_header(text("a=1; junk; =x; b=2;  ; c"));
    assert_eq!(jar.get("a"), Some(text("1")));
    assert_eq!(jar.get("b"), Some(text("2")));
    assert_eq!(jar.get("junk"), None);
    assert_eq!(jar.get("c"), None);
    assert_eq!(jar.get(""), None);
    assert!(jar.delta().is_empty());
}

#[test]
fn unparseable_header_gives_empty_jar() {
    let jar = from_cookie_header(text("no cookies here"));
    assert_eq!(jar.get("no cookies here"), None);
    assert!(jar.delta().is_empty());
}

#[test]
fn empty_header_gives_empty_jar() {
    let jar = from_cookie_header(text(""));
    assert!(jar.delta().is_empty());
    assert_eq!(jar.get(""), None);
}

#[test]
fn parsing_trims_name_and_value() {
    let jar = from_cookie_header(text(" a = 1 ; b=\"two\""));
    assert_eq!(jar.get("a"), Some(text("1")));
    assert_eq!(jar.get("b"), Some(text("two")));
}

#[test]
fn first_of_two_inbound_cookies_with_one_name_counts() {
    let jar = from_cookie_header(text("a=1; a=2"));
    assert_eq!(jar.get("a"), Some(text("1")));
    assert!(jar.delta().is_empty());
}

#[test]
fn segment_without_space_after_semicolon_is_one_cookie() {
    let jar = from_cookie_header(text("a=1;b=2"));
    assert_eq!(jar.get("a"), Some(text("1")));
    assert_eq!(jar.get("b"), None);
}

#[test]
fn from_pairs_passes_over_empty_and_repeated_names() {
    let jar = CookieJar::from_pairs(vec![
        (text("a"), text("1")),
        (text(""), text("x")),
        (text("a"), text("2")),
        (text("b"), text("3")),
    ]);
    assert_eq!(jar.get("a"), Some(text("1")));
    assert_eq!(jar.get("b"), Some(text("3")));
    assert_eq!(jar.get(""), None);
    assert!(jar.delta().is_empty());
}

#[test]
fn set_then_get_returns_value() {
    let mut jar = CookieJar::new();
    jar.set(text("n"), text("v"), CookieAttributes::session());
    assert_eq!(jar.get("n"), Some(text("v")));
    jar.set(text("m"), text("w"), CookieAttributes::session());
    jar.set(text("k"), text("x"), CookieAttributes::defaults_at(5));
    jar.remove("k");
    assert_eq!(jar.get("n"), Some(text("v")));
    assert_eq!(jar.get("m"), Some(text("w")));
    assert_eq!(jar.get("k"), None);
}

#[test]
fn set_overwrites_instead_of_duplicating() {
    let mut jar = from_cookie_header(text("a=1; b=2"));
    jar.set(text("a"), text("9"), CookieAttributes::session());
    jar.set(text("a"), text("10"), CookieAttributes::session());
    assert_eq!(jar.get("a"), Some(text("10")));
    let delta = jar.delta();
    assert_eq!(delta.len(), 1);
    assert_eq!(delta[0], CookieRecord::new(text("a"), text("10"), CookieAttributes::session()));
}

#[test]
fn set_with_empty_name_changes_nothing() {
    let mut jar = from_cookie_header(text("a=1"));
    jar.set(text(""), text("v"), CookieAttributes::session());
    assert_eq!(jar.get(""), None);
    assert!(jar.delta().is_empty());
}

#[test]
fn set_to_what_the_request_brought_reports_nothing() {
    let mut jar = from_cookie_header(text("a=1"));
    jar.set(text("a"), text("1"), plain("/", false, false, None));
    assert!(jar.delta().is_empty());
    jar.set(text("a"), text("1"), plain("/", false, true, None));
    assert_eq!(jar.delta().len(), 1);
    jar.set(text("a"), text("1"), plain("/", false, false, None));
    assert!(jar.delta().is_empty());
}

#[test]
fn changed_attribute_alone_is_reported() {
    let mut jar = from_cookie_header(text("a=1"));
    jar.set(text("a"), text("1"), plain("/app", false, false, None));
    let delta = jar.delta();
    assert_eq!(delta.len(), 1);
    assert_eq!(delta[0].path, "/app");
    assert_eq!(delta[0].value, "1");
}

#[test]
fn remove_of_inbound_cookie_gives_one_tombstone() {
    let mut jar = from_cookie_header(text("n=1; m=2"));
    jar.remove("n");
    assert_eq!(jar.get("n"), None);
    let delta = jar.delta();
    assert_eq!(delta.len(), 1);
    assert_eq!(delta[0], CookieRecord::tombstone(text("n")));
    assert_eq!(delta[0].name, "n");
    assert_eq!(delta[0].value, "");
    assert_eq!(delta[0].expires, Some(TOMBSTONE_EXPIRES));
    assert!(delta[0].expires.unwrap() < now_secs());
    jar.remove("n");
    assert_eq!(jar.delta().len(), 1);
}

#[test]
fn remove_of_unknown_name_gives_no_entry() {
    let mut jar = from_cookie_header(text("n=1"));
    jar.remove("zz");
    assert!(jar.delta().is_empty());
    assert_eq!(jar.get("n"), Some(text("1")));
}

#[test]
fn delta_twice_is_equal() {
    let mut jar = from_cookie_header(text("a=1; b=2; c=3"));
    jar.set(text("b"), text("x"), CookieAttributes::defaults_at(100));
    jar.set(text("d"), text("y"), CookieAttributes::session());
    jar.remove("a");
    let first = jar.delta();
    let second = jar.delta();
    assert_eq!(first, second);
    assert_eq!(first.len(), 3);
}

#[test]
fn delta_lists_changes_in_order_then_tombstones() {
    let mut jar = from_cookie_header(text("a=1; b=2; c=3"));
    jar.set(text("d"), text("y"), CookieAttributes::session());
    jar.remove("c");
    jar.set(text("b"), text("x"), CookieAttributes::defaults_at(100));
    jar.remove("a");
    let delta = jar.delta();
    assert_eq!(
        delta,
        vec![
            CookieRecord::new(text("b"), text("x"), CookieAttributes::defaults_at(100)),
            CookieRecord::new(text("d"), text("y"), CookieAttributes::session()),
            CookieRecord::tombstone(text("c")),
            CookieRecord::tombstone(text("a")),
        ]
    );
}

#[test]
fn inbound_n2_is_overwritten_once() {
    let mut jar = get_cookie_jar(Some(text("n2=old")));
    let before = now_secs();
    set_cookie(&mut jar, text("n2"), text("vvv"));
    let after = now_secs();
    let delta = jar.delta();
    assert_eq!(delta.len(), 1);
    let record = &delta[0];
    assert_eq!(record.name, "n2");
    assert_eq!(record.value, "vvv");
    assert_eq!(record.path, "/");
    assert!(record.http_only);
    assert!(!record.secure);
    let expires = record.expires.unwrap();
    assert!(before + DEFAULT_LIFETIME_SECS <= expires);
    assert!(expires <= after + DEFAULT_LIFETIME_SECS);
}

#[test]
fn set_then_remove_without_header_leaves_tombstone() {
    let mut jar = get_cookie_jar(None);
    set_cookie(&mut jar, text("a"), text("1"));
    jar.remove("a");
    let delta = jar.delta();
    assert_eq!(delta, vec![CookieRecord::tombstone(text("a"))]);
}

#[test]
fn two_writers_of_one_name_last_wins() {
    let mut one_then_two = get_cookie_jar(None);
    set_cookie(&mut one_then_two, text("x"), text("1"));
    set_cookie(&mut one_then_two, text("x"), text("2"));
    assert_eq!(get_cookie(&one_then_two, text("x")), Some(text("2")));
    assert_eq!(one_then_two.delta().len(), 1);

    let mut two_then_one = get_cookie_jar(None);
    set_cookie(&mut two_then_one, text("x"), text("2"));
    set_cookie(&mut two_then_one, text("x"), text("1"));
    assert_eq!(get_cookie(&two_then_one, text("x")), Some(text("1")));
    assert_eq!(two_then_one.delta().len(), 1);
}

#[test]
fn set_after_remove_clears_the_tombstone() {
    let mut jar = from_cookie_header(text("a=1"));
    jar.remove("a");
    assert_eq!(jar.delta(), vec![CookieRecord::tombstone(text("a"))]);
    jar.set(text("a"), text("2"), CookieAttributes::session());
    assert_eq!(
        jar.delta(),
        vec![CookieRecord::new(text("a"), text("2"), CookieAttributes::session())]
    );
    jar.set(text("a"), text("1"), plain("/", false, false, None));
    assert!(jar.delta().is_empty());
}

#[test]
fn default_attributes_keep_a_cookie_for_a_year() {
    let attributes = CookieAttributes::defaults_at(1_000);
    assert_eq!(attributes, plain("/", false, true, Some(31_537_000)));
    assert_eq!(DEFAULT_LIFETIME_SECS, 365 * 24 * 60 * 60);
}

#[test]
fn default_expiry_stops_at_the_largest_timestamp() {
    assert_eq!(CookieAttributes::defaults_at(i64::MAX).expires, Some(i64::MAX));
    assert_eq!(CookieAttributes::defaults_at(i64::MAX - DEFAULT_LIFETIME_SECS).expires, Some(i64::MAX));
    assert_eq!(
        CookieAttributes::defaults_at(i64::MAX - DEFAULT_LIFETIME_SECS - 1).expires,
        Some(i64::MAX - 1)
    );
    assert_eq!(CookieAttributes::defaults_at(i64::MIN).expires, Some(i64::MIN + DEFAULT_LIFETIME_SECS));
}

#[test]
fn session_attributes_have_no_expiry() {
    assert_eq!(CookieAttributes::session(), plain("/", false, true, None));
}

#[test]
fn inbound_record_has_name_and_value_only() {
    let record = CookieRecord::inbound(text("a"), text("1"));
    assert_eq!(record.name, "a");
    assert_eq!(record.value, "1");
    assert_eq!(record.path, "/");
    assert!(!record.secure);
    assert!(!record.http_only);
    assert_eq!(record.expires, None);
}

#[test]
fn records_compare_by_every_field() {
    let a = CookieRecord::new(text("a"), text("1"), CookieAttributes::session());
    let b = a.clone();
    assert!(a.same_as(&b));
    assert_eq!(a, b);
    let c = CookieRecord::new(text("a"), text("1"), CookieAttributes::defaults_at(0));
    assert!(!a.same_as(&c));
    let d = CookieRecord::new(text("a"), text("2"), CookieAttributes::session());
    assert!(!a.same_as(&d));
}

#[test]
fn posts_reads_then_renews_its_cookie() {
    let mut jar = get_cookie_jar(Some(text("n2=old; other=1")));
    let before = now_secs();
    let seen = QueryRoot.posts(&mut jar);
    let after = now_secs();
    assert_eq!(seen, Some(text("old")));
    assert_eq!(jar.get("n2"), Some(text("vvv")));
    assert_eq!(jar.get("other"), Some(text("1")));
    let delta = jar.delta();
    assert_eq!(delta.len(), 1);
    assert_eq!(delta[0].name, "n2");
    assert_eq!(delta[0].value, "vvv");
    let expires = delta[0].expires.unwrap();
    assert!(before + DEFAULT_LIFETIME_SECS <= expires && expires <= after + DEFAULT_LIFETIME_SECS);
}

#[test]
fn posts_on_first_visit_sees_nothing() {
    let mut jar = get_cookie_jar(None);
    assert_eq!(QueryRoot.posts(&mut jar), None);
    assert_eq!(jar.get("n2"), Some(text("vvv")));
    assert_eq!(QueryRoot.posts(&mut jar), Some(text("vvv")));
    assert_eq!(jar.delta().len(), 1);
}
