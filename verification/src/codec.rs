//! Reading the `Cookie` header and writing `Set-Cookie` lines.

use vstd::prelude::*;
use vstd::string::StrSliceExecFns;
use vstd::utf8::encode_utf8;
use crate::jar::CookieJar;
use crate::model::JarModel;
use crate::record::{CookieRecord, RecordModel};

verus! {

/// The earliest expiry that can be written as an HTTP date: the first second of the year 1.
pub const EXPIRES_MIN: i64 = -62_135_596_800;

/// The latest expiry that can be written as an HTTP date: the last second of the year 9999.
pub const EXPIRES_MAX: i64 = 253_402_300_799;

/// Whether `text` ends in the two characters that part the cookies of a header.
pub open spec fn ends_with_separator(text: Seq<char>) -> bool {
    text.len() >= 2 && text[text.len() - 2] == ';' && text[text.len() - 1] == ' '
}

/// The pieces of `text` between the occurrences of `"; "`: one more piece than
/// there are occurrences, so the empty text is one empty piece.
pub open spec fn split_segments(text: Seq<char>) -> Seq<Seq<char>>
    decreases text.len(),
{
    if text.len() == 0 {
        seq![Seq::empty()]
    } else if ends_with_separator(text) {
        split_segments(text.take(text.len() - 2)).push(Seq::empty())
    } else {
        let earlier = split_segments(text.drop_last());
        earlier.drop_last().push(earlier.last().push(text.last()))
    }
}

/// Whether `"; "` occurs in `text`.
pub open spec fn holds_separator(text: Seq<char>) -> bool {
    exists|i: int| 0 <= i && i + 1 < text.len() && #[trigger] text[i] == ';' && text[i + 1] == ' '
}

/// The segments in a row with `"; "` between each two.
pub open spec fn joined(segments: Seq<Seq<char>>) -> Seq<char>
    decreases segments.len(),
{
    if segments.len() == 0 {
        Seq::empty()
    } else if segments.len() == 1 {
        segments[0]
    } else {
        joined(segments.drop_last()) + seq![';', ' '] + segments.last()
    }
}

/// The name and the value that `cookie::Cookie::parse` finds in one piece of a
/// `Cookie` header, or `None` where it finds no cookie in it.
pub uninterp spec fn cookie_pair(segment: Seq<char>) -> Option<(Seq<char>, Seq<char>)>;

/// What parsing makes of each segment, in order.
pub open spec fn parse_results(segments: Seq<Seq<char>>) -> Seq<Option<(Seq<char>, Seq<char>)>> {
    Seq::new(segments.len(), |i: int| cookie_pair(segments[i]))
}

/// The pairs among `results`, in order: a segment that did not parse leaves no trace.
pub open spec fn kept_pairs(results: Seq<Option<(Seq<char>, Seq<char>)>>) -> Seq<
    (Seq<char>, Seq<char>),
>
    decreases results.len(),
{
    if results.len() == 0 {
        Seq::empty()
    } else {
        let earlier = kept_pairs(results.drop_last());
        match results.last() {
            Some(pair) => earlier.push(pair),
            None => earlier,
        }
    }
}

/// The jar that a `Cookie` header amounts to.
pub open spec fn header_jar(header: Seq<char>) -> JarModel {
    JarModel::from_pairs(kept_pairs(parse_results(split_segments(header))))
}

/// The characters of `text`, one by one.
fn chars_of(text: &str) -> (chars: Vec<char>)
    ensures
        chars@ == text@,
{
    broadcast use vstd::string::group_string_axioms;

    let mut chars: Vec<char> = Vec::new();
    for c in it: text.chars()
        invariant
            it.seq() == text@,
            chars@ == it.seq().take(it.index() as int),
    {
        chars.push(c);
    }
    assert(chars@ =~= text@);
    chars
}

/// Cuts a `Cookie` header at every `"; "`.
pub fn split_header(header: &str) -> (segments: Vec<String>)
    ensures
        segments.deep_view() == split_segments(header@),
{
    let chars = chars_of(header);
    let n = chars.len();
    let ghost text = header@;
    let mut segments: Vec<String> = Vec::new();
    let mut start: usize = 0;
    let mut i: usize = 0;
    proof {
        assert(text.take(0).len() == 0);
        assert(text.subrange(0, 0) =~= Seq::empty());
        assert(segments.deep_view() =~= Seq::empty());
        assert(seq![Seq::<char>::empty()] =~= Seq::<Seq<char>>::empty().push(Seq::empty()));
    }
    while i < n
        invariant
            start <= i <= n,
            n == text.len(),
            chars@ == text,
            text == header@,
            i >= 1 && i < n ==> !(text[i - 1] == ';' && text[i as int] == ' '),
            split_segments(text.take(i as int)) == segments.deep_view().push(
                text.subrange(start as int, i as int),
            ),
        decreases n - i,
    {
        let ghost done = segments.deep_view();
        let ghost open = text.subrange(start as int, i as int);
        if chars[i] == ';' && i + 1 < n && chars[i + 1] == ' ' {
            let piece = header.substring_char(start, i).to_owned();
            segments.push(piece);
            proof {
                let upto = text.take(i + 2);
                assert(ends_with_separator(upto));
                assert(upto.take(upto.len() - 2) =~= text.take(i as int));
                assert(segments.deep_view() =~= done.push(open));
                assert(text.subrange(i + 2, i + 2) =~= Seq::empty());
            }
            i += 2;
            start = i;
        } else {
            proof {
                let upto = text.take(i + 1);
                assert(!ends_with_separator(upto));
                assert(upto.drop_last() =~= text.take(i as int));
                assert(upto.last() == text[i as int]);
                assert(done.push(open).drop_last() =~= done);
                assert(open.push(text[i as int]) =~= text.subrange(start as int, i + 1));
            }
            i += 1;
        }
    }
    let ghost done = segments.deep_view();
    let piece = header.substring_char(start, n).to_owned();
    segments.push(piece);
    proof {
        assert(text.take(n as int) =~= text);
        assert(segments.deep_view() =~= done.push(text.subrange(start as int, n as int)));
    }
    segments
}

/// Calls `cookie::Cookie::parse` on one piece of a `Cookie` header and hands
/// back the name and the value of the cookie it made, or `None` where it
/// refused the piece. Nothing is claimed of the outcome but that it is the
/// same for the same piece.
#[verifier::external_body]
fn parse_pair(segment: &str) -> (pair: Option<(String, String)>)
    ensures
        pair.deep_view() == cookie_pair(segment@),
{
    match cookie::Cookie::parse(segment) {
        Ok(cookie) => Some((cookie.name().to_owned(), cookie.value().to_owned())),
        Err(_) => None,
    }
}

/// The jar of a request that brought `segments`, each the text of one cookie.
/// Each is parsed on its own, and one that does not parse is passed over.
pub fn from_cookie_segments(segments: Vec<String>) -> (jar: CookieJar)
    ensures
        jar@ == JarModel::from_pairs(kept_pairs(parse_results(segments.deep_view()))),
        jar@.wf(),
{
    let ghost parsed = parse_results(segments.deep_view());
    let mut pairs: Vec<(String, String)> = Vec::new();
    let mut i: usize = 0;
    assert(parsed.take(0) =~= Seq::empty());
    assert(pairs.deep_view() =~= Seq::empty());
    while i < segments.len()
        invariant
            i <= segments.len(),
            parsed == parse_results(segments.deep_view()),
            pairs.deep_view() == kept_pairs(parsed.take(i as int)),
        decreases segments.len() - i,
    {
        let ghost before = pairs.deep_view();
        proof {
            assert(parsed.take(i + 1).drop_last() =~= parsed.take(i as int));
            assert(parsed.take(i + 1).last() == cookie_pair(segments[i as int]@));
        }
        match parse_pair(segments[i].as_str()) {
            Some(pair) => {
                pairs.push(pair);
                assert(pairs.deep_view() =~= before.push(pair.deep_view()));
            },
            None => {},
        }
        i += 1;
    }
    assert(parsed.take(i as int) =~= parsed);
    CookieJar::from_pairs(pairs)
}

/// The jar of a request with the `Cookie` header `header`: the header is cut
/// at every `"; "`, each piece is parsed on its own, and a piece that does not
/// parse is passed over. The jar holds what is left, unchanged so far.
pub fn from_cookie_header(header: String) -> (jar: CookieJar)
    ensures
        jar@ == header_jar(header@),
        jar@.wf(),
{
    from_cookie_segments(split_header(header.as_str()))
}

/// The jar of a request: that of its `Cookie` header, or an empty one where
/// the request has no such header.
pub fn get_cookie_jar(cookie_header: Option<String>) -> (jar: CookieJar)
    ensures
        jar@ == match cookie_header {
            Some(header) => header_jar(header@),
            None => JarModel::empty(),
        },
        jar@.wf(),
{
    match cookie_header {
        Some(header) => from_cookie_header(header),
        None => CookieJar::new(),
    }
}

/// Whether `expires` can be written as an HTTP date: it lies in the years 1 to 9999.
pub open spec fn expiry_writable(expires: Option<int>) -> bool {
    match expires {
        Some(t) => EXPIRES_MIN <= t <= EXPIRES_MAX,
        None => true,
    }
}

/// The date that the cookie crate writes after `Expires=` for a cookie that
/// expires `timestamp` seconds after the Unix epoch.
pub uninterp spec fn http_date(timestamp: int) -> Seq<char>;

/// The `Set-Cookie` line of `record`, with `date` for its expiry: the pair,
/// then `HttpOnly` and `Secure` where they are set, the path, and the expiry
/// where there is one.
pub open spec fn set_cookie_line(record: RecordModel, date: Option<Seq<char>>) -> Seq<char> {
    record.name + "="@ + record.value + (if record.http_only {
        "; HttpOnly"@
    } else {
        Seq::empty()
    }) + (if record.secure {
        "; Secure"@
    } else {
        Seq::empty()
    }) + "; Path="@ + record.path + (match date {
        Some(written) => "; Expires="@ + written,
        None => Seq::empty(),
    })
}

/// The `Set-Cookie` line of `record`.
pub open spec fn rendered(record: RecordModel) -> Seq<char> {
    set_cookie_line(
        record,
        match record.expires {
            Some(t) => Some(http_date(t)),
            None => None,
        },
    )
}

/// Whether the `http` crate takes the byte `b` in a header value: no control
/// character but the tab.
pub open spec fn header_byte_ok(b: u8) -> bool {
    (b >= 32 && b != 127) || b == 9
}

/// Whether the `http` crate takes `text` as a header value: every byte of its
/// UTF-8 form passes.
pub open spec fn header_value_ok(text: Seq<char>) -> bool {
    forall|i: int| 0 <= i < encode_utf8(text).len() ==> header_byte_ok(#[trigger] encode_utf8(text)[i])
}

/// The line that goes out for `record`, or `None` where none can: its expiry
/// cannot be written as a date, or the line is no header value.
pub open spec fn serialized(record: RecordModel) -> Option<Seq<char>> {
    if expiry_writable(record.expires) && header_value_ok(rendered(record)) {
        Some(rendered(record))
    } else {
        None
    }
}

/// Builds a `cookie::Cookie` from `record` with `Cookie::build` and has it
/// written out by its `Display`. The contract repeats what that `Display`
/// prints: `name=value`, `; HttpOnly` and `; Secure` where the flag is true,
/// `; Path=` and the path, and for a cookie with an expiry `; Expires=` and the
/// date, which is named and not spelled out. An expiry outside the years 1 to
/// 9999 is left out by `requires`: the `time` crate may refuse it.
#[verifier::external_body]
fn render(record: &CookieRecord) -> (line: String)
    requires
        expiry_writable(record@.expires),
    ensures
        line@ == set_cookie_line(
            record@,
            match record@.expires {
                Some(t) => Some(http_date(t)),
                None => None,
            },
        ),
{
    let when = match record.expires {
        Some(t) => time::OffsetDateTime::from_unix_timestamp(t).ok(),
        None => None,
    };
    cookie::Cookie::build(record.name.clone(), record.value.clone())
        .path(record.path.clone())
        .secure(record.secure)
        .http_only(record.http_only)
        .expires(when)
        .finish()
        .to_string()
}

/// Asks `http::HeaderValue::from_str` whether it takes `text`. It goes through
/// the bytes of `text` and refuses at the first control character other than
/// the tab.
#[verifier::external_body]
fn is_header_value(text: &str) -> (ok: bool)
    ensures
        ok == header_value_ok(text@),
{
    http::HeaderValue::from_str(text).is_ok()
}

/// The `Set-Cookie` line for `record`. A session cookie gets a line like any
/// other. There is no line for a record whose expiry lies outside the years 1
/// to 9999, or whose line holds a character that no header value may hold.
pub fn serialize(record: &CookieRecord) -> (line: Option<String>)
    ensures
        line.deep_view() == serialized(record@),
{
    let writable = match record.expires {
        Some(t) => EXPIRES_MIN <= t && t <= EXPIRES_MAX,
        None => true,
    };
    if !writable {
        return None;
    }
    let line = render(record);
    if is_header_value(line.as_str()) {
        Some(line)
    } else {
        None
    }
}

} // verus!
