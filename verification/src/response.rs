//! The response of a request, with the cookies that the jar reports.

use vstd::prelude::*;
use crate::codec::{serialize, serialized};
use crate::jar::CookieJar;
use crate::record::{CookieRecord, RecordModel};

verus! {

/// The status of a response that went well.
pub const STATUS_OK: u16 = 200;

/// What goes back to the client: a status, the values of the `Set-Cookie`
/// headers, and the body. `dropped` names the cookies that should have gone
/// out and could not be written, so that the caller can warn of them.
#[derive(Debug, PartialEq, Eq)]
pub struct Response {
    pub status: u16,
    pub set_cookie: Vec<String>,
    pub dropped: Vec<String>,
    pub body: String,
}

/// Mathematical value of a response.
pub struct ResponseModel {
    pub status: int,
    pub set_cookie: Seq<Seq<char>>,
    pub dropped: Seq<Seq<char>>,
    pub body: Seq<char>,
}

impl View for Response {
    type V = ResponseModel;

    open spec fn view(&self) -> ResponseModel {
        ResponseModel {
            status: self.status as int,
            set_cookie: self.set_cookie.deep_view(),
            dropped: self.dropped.deep_view(),
            body: self.body@,
        }
    }
}

/// The `Set-Cookie` values for `entries`, in order. An entry that cannot be
/// written out is dropped and the others stay.
pub open spec fn header_lines(entries: Seq<RecordModel>) -> Seq<Seq<char>>
    decreases entries.len(),
{
    if entries.len() == 0 {
        Seq::empty()
    } else {
        let earlier = header_lines(entries.drop_last());
        match serialized(entries.last()) {
            Some(line) => earlier.push(line),
            None => earlier,
        }
    }
}

/// The names of the entries that cannot be written out, in order.
pub open spec fn dropped_names(entries: Seq<RecordModel>) -> Seq<Seq<char>>
    decreases entries.len(),
{
    if entries.len() == 0 {
        Seq::empty()
    } else {
        let earlier = dropped_names(entries.drop_last());
        match serialized(entries.last()) {
            Some(_) => earlier,
            None => earlier.push(entries.last().name),
        }
    }
}

/// Writes each of `entries` out as the value of a `Set-Cookie` header. The
/// first list holds the values, the second the names of the entries for which
/// there is none.
pub fn set_cookie_lines(entries: &Vec<CookieRecord>) -> (written: (Vec<String>, Vec<String>))
    ensures
        written.0.deep_view() == header_lines(entries.deep_view()),
        written.1.deep_view() == dropped_names(entries.deep_view()),
{
    let ghost models = entries.deep_view();
    let mut lines: Vec<String> = Vec::new();
    let mut dropped: Vec<String> = Vec::new();
    let mut i: usize = 0;
    assert(models.take(0) =~= Seq::empty());
    assert(lines.deep_view() =~= Seq::empty());
    assert(dropped.deep_view() =~= Seq::empty());
    while i < entries.len()
        invariant
            i <= entries.len(),
            models == entries.deep_view(),
            lines.deep_view() == header_lines(models.take(i as int)),
            dropped.deep_view() == dropped_names(models.take(i as int)),
        decreases entries.len() - i,
    {
        let ghost lines_before = lines.deep_view();
        let ghost dropped_before = dropped.deep_view();
        proof {
            assert(models.take(i + 1).drop_last() =~= models.take(i as int));
            assert(models.take(i + 1).last() == entries[i as int]@);
        }
        match serialize(&entries[i]) {
            Some(line) => {
                lines.push(line);
                assert(lines.deep_view() =~= lines_before.push(line@));
            },
            None => {
                dropped.push(entries[i].name.clone());
                assert(dropped.deep_view() =~= dropped_before.push(entries[i as int]@.name));
            },
        }
        i += 1;
    }
    assert(models.take(i as int) =~= models);
    (lines, dropped)
}

/// The response that carries `string` as its body and one `Set-Cookie` value
/// for each entry of the jar's delta. It is made once, when every handler is
/// done with the jar. Whether `string` reports an answer or a failure makes no
/// difference: what the handlers did to the cookies goes out either way.
pub fn respond_with_jar(jar: &CookieJar, string: String) -> (response: Response)
    ensures
        jar@.wf(),
        response@ == (ResponseModel {
            status: STATUS_OK as int,
            set_cookie: header_lines(jar@.delta()),
            dropped: dropped_names(jar@.delta()),
            body: string@,
        }),
{
    let entries = jar.delta();
    let (set_cookie, dropped) = set_cookie_lines(&entries);
    Response { status: STATUS_OK, set_cookie, dropped, body: string }
}

} // verus!
