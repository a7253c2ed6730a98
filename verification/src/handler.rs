//! What a request handler does with the jar.

use vstd::prelude::*;
use vstd::string::StringExecFns;
use crate::jar::CookieJar;
use crate::model::JarModel;
use crate::record::{AttributesModel, CookieAttributes};

verus! {

/// Reads the clock with `time::OffsetDateTime::now_utc` and hands back its
/// Unix timestamp in seconds. Nothing is promised of the number.
#[verifier::external_body]
fn unix_now() -> i64 {
    time::OffsetDateTime::now_utc().unix_timestamp()
}

/// The value of the cookie called `name`, if the jar holds one now.
pub fn get_cookie(jar: &CookieJar, name: String) -> (value: Option<String>)
    ensures
        jar@.wf(),
        value.deep_view() == jar@.get(name@),
{
    jar.get(name.as_str())
}

/// Sets the cookie `name` to `value` with the attributes of a cookie set
/// without further wishes: path `/`, `HttpOnly`, not `Secure`, kept for a year
/// from the moment of the call. A session cookie takes `CookieJar::set` with
/// `CookieAttributes::session`.
pub fn set_cookie(jar: &mut CookieJar, name: String, value: String)
    ensures
        old(jar)@.wf(),
        exists|now: int|
            final(jar)@ == old(jar)@.set(name@, value@, #[trigger] AttributesModel::defaults_at(now)),
        final(jar)@.wf(),
{
    let now = unix_now();
    jar.set(name, value, CookieAttributes::defaults_at(now));
}

/// The root of the queries. Its one field, `posts`, answers with a count from
/// the store; on the way it looks at the visitor's cookie and renews it.
pub struct QueryRoot;

/// The name of the cookie that `posts` keeps.
pub open spec fn visit_cookie_name() -> Seq<char> {
    seq!['n', '2']
}

/// The value that `posts` gives its cookie.
pub open spec fn visit_cookie_value() -> Seq<char> {
    seq!['v', 'v', 'v']
}

/// The jar after `posts` has run at the time `now`.
pub open spec fn after_posts(jar: JarModel, now: int) -> JarModel {
    jar.set(visit_cookie_name(), visit_cookie_value(), AttributesModel::defaults_at(now))
}

impl QueryRoot {
    /// The part of `posts` that touches the jar: it reads the cookie `n2`, then
    /// sets it to `vvv` for a year. The value it found is handed back. The
    /// count itself comes from the store, after this.
    pub fn posts(&self, jar: &mut CookieJar) -> (seen: Option<String>)
        ensures
            old(jar)@.wf(),
            seen.deep_view() == old(jar)@.get(visit_cookie_name()),
            exists|now: int| final(jar)@ == #[trigger] after_posts(old(jar)@, now),
            final(jar)@.wf(),
    {
        proof {
            reveal_strlit("n2");
            reveal_strlit("vvv");
        }
        let name = String::from_str("n2");
        let value = String::from_str("vvv");
        assert(name@ =~= visit_cookie_name());
        assert(value@ =~= visit_cookie_value());
        let seen = jar.get(name.as_str());
        let now = unix_now();
        jar.set(name, value, CookieAttributes::defaults_at(now));
        assert(jar@ == after_posts(old(jar)@, now as int));
        seen
    }
}

} // verus!
