//! One cookie: its name, its value and the attributes sent along with it.

use vstd::prelude::*;
use vstd::string::StringExecFns;

verus! {

/// Seconds in the 365 days that a cookie lives when nothing else is asked for.
pub const DEFAULT_LIFETIME_SECS: i64 = 31_536_000;

/// The expiry written on a clearing cookie: the Unix epoch.
pub const TOMBSTONE_EXPIRES: i64 = 0;

/// Mathematical value of a cookie record.
pub struct RecordModel {
    pub name: Seq<char>,
    pub value: Seq<char>,
    pub path: Seq<char>,
    pub secure: bool,
    pub http_only: bool,
    /// Seconds since the Unix epoch, or `None` for a session cookie.
    pub expires: Option<int>,
}

/// Mathematical value of the attributes handed to a `set`.
pub struct AttributesModel {
    pub path: Seq<char>,
    pub secure: bool,
    pub http_only: bool,
    pub expires: Option<int>,
}

/// An optional timestamp as an optional integer.
pub open spec fn expiry_model(expires: Option<i64>) -> Option<int> {
    match expires {
        Some(t) => Some(t as int),
        None => None,
    }
}

/// The path every cookie gets unless the caller names another: `/`.
pub open spec fn default_path() -> Seq<char> {
    seq!['/']
}

/// One year after `now`, held at the largest timestamp where the sum would not fit.
pub open spec fn default_expiry(now: int) -> int {
    if now + DEFAULT_LIFETIME_SECS <= i64::MAX {
        now + DEFAULT_LIFETIME_SECS
    } else {
        i64::MAX as int
    }
}

impl AttributesModel {
    /// Path `/`, `HttpOnly`, not `Secure`, expiring a year after `now`.
    pub open spec fn defaults_at(now: int) -> AttributesModel {
        AttributesModel {
            path: default_path(),
            secure: false,
            http_only: true,
            expires: Some(default_expiry(now)),
        }
    }

    /// Path `/`, `HttpOnly`, not `Secure`, gone when the browser session ends.
    pub open spec fn session() -> AttributesModel {
        AttributesModel { path: default_path(), secure: false, http_only: true, expires: None }
    }
}

impl RecordModel {
    /// The record that `set(name, value, attributes)` stores.
    pub open spec fn new(name: Seq<char>, value: Seq<char>, attributes: AttributesModel) -> RecordModel {
        RecordModel {
            name,
            value,
            path: attributes.path,
            secure: attributes.secure,
            http_only: attributes.http_only,
            expires: attributes.expires,
        }
    }

    /// A cookie as the client sent it: a name and a value, nothing else known.
    pub open spec fn inbound(name: Seq<char>, value: Seq<char>) -> RecordModel {
        RecordModel {
            name,
            value,
            path: default_path(),
            secure: false,
            http_only: false,
            expires: None,
        }
    }

    /// The clearing cookie for `name`: no value, expired at the epoch.
    pub open spec fn tombstone(name: Seq<char>) -> RecordModel {
        RecordModel {
            name,
            value: Seq::empty(),
            path: default_path(),
            secure: false,
            http_only: true,
            expires: Some(TOMBSTONE_EXPIRES as int),
        }
    }

    /// No value, and an expiry that lies before `now`.
    pub open spec fn is_tombstone_at(self, now: int) -> bool {
        &&& self.value.len() == 0
        &&& self.expires matches Some(t) && t < now
    }
}

/// Attributes for a `set`: everything of a cookie but its name and value.
#[derive(Debug, PartialEq, Eq)]
pub struct CookieAttributes {
    pub path: String,
    pub secure: bool,
    pub http_only: bool,
    /// Seconds since the Unix epoch; `None` makes a session cookie.
    pub expires: Option<i64>,
}

impl View for CookieAttributes {
    type V = AttributesModel;

    open spec fn view(&self) -> AttributesModel {
        AttributesModel {
            path: self.path@,
            secure: self.secure,
            http_only: self.http_only,
            expires: expiry_model(self.expires),
        }
    }
}

/// The string `/`.
fn root_path() -> (path: String)
    ensures
        path@ == default_path(),
{
    proof {
        reveal_strlit("/");
    }
    let path = String::from_str("/");
    assert(path@ =~= default_path());
    path
}

impl CookieAttributes {
    /// The attributes of a cookie set without further wishes at time `now`
    /// (seconds since the Unix epoch): it is kept for a year.
    pub fn defaults_at(now: i64) -> (attributes: Self)
        ensures
            attributes@ == AttributesModel::defaults_at(now as int),
    {
        let expires = if now <= i64::MAX - DEFAULT_LIFETIME_SECS {
            now + DEFAULT_LIFETIME_SECS
        } else {
            i64::MAX
        };
        CookieAttributes { path: root_path(), secure: false, http_only: true, expires: Some(expires) }
    }

    /// The attributes of a cookie that is to end with the browser session.
    pub fn session() -> (attributes: Self)
        ensures
            attributes@ == AttributesModel::session(),
    {
        CookieAttributes { path: root_path(), secure: false, http_only: true, expires: None }
    }
}

/// One cookie. Two records of a jar are the same cookie when their names agree.
#[derive(Debug, PartialEq, Eq)]
pub struct CookieRecord {
    pub name: String,
    pub value: String,
    pub path: String,
    pub secure: bool,
    pub http_only: bool,
    /// Seconds since the Unix epoch; `None` for a session cookie.
    pub expires: Option<i64>,
}

impl View for CookieRecord {
    type V = RecordModel;

    open spec fn view(&self) -> RecordModel {
        RecordModel {
            name: self.name@,
            value: self.value@,
            path: self.path@,
            secure: self.secure,
            http_only: self.http_only,
            expires: expiry_model(self.expires),
        }
    }
}

impl DeepView for CookieRecord {
    type V = RecordModel;

    open spec fn deep_view(&self) -> RecordModel {
        self@
    }
}

impl CookieRecord {
    /// A record from a name, a value and attributes.
    pub fn new(name: String, value: String, attributes: CookieAttributes) -> (record: Self)
        ensures
            record@ == RecordModel::new(name@, value@, attributes@),
    {
        CookieRecord {
            name,
            value,
            path: attributes.path,
            secure: attributes.secure,
            http_only: attributes.http_only,
            expires: attributes.expires,
        }
    }

    /// A cookie as it came in on the request.
    pub fn inbound(name: String, value: String) -> (record: Self)
        ensures
            record@ == RecordModel::inbound(name@, value@),
    {
        CookieRecord {
            name,
            value,
            path: root_path(),
            secure: false,
            http_only: false,
            expires: None,
        }
    }

    /// The cookie that tells the client to forget `name`.
    pub fn tombstone(name: String) -> (record: Self)
        ensures
            record@ == RecordModel::tombstone(name@),
    {
        CookieRecord {
            name,
            value: String::new(),
            path: root_path(),
            secure: false,
            http_only: true,
            expires: Some(TOMBSTONE_EXPIRES),
        }
    }

    /// Whether both records hold the same name, value and attributes.
    pub fn same_as(&self, other: &CookieRecord) -> (same: bool)
        ensures
            same == (self@ == other@),
    {
        let same = self.name == other.name && self.value == other.value && self.path == other.path
            && self.secure == other.secure && self.http_only == other.http_only
            && self.expires == other.expires;
        proof {
            if same {
                assert(self@ == other@);
            }
        }
        same
    }
}

impl Clone for CookieRecord {
    fn clone(&self) -> (copy: Self)
        ensures
            copy == *self,
    {
        CookieRecord {
            name: self.name.clone(),
            value: self.value.clone(),
            path: self.path.clone(),
            secure: self.secure,
            http_only: self.http_only,
            expires: self.expires,
        }
    }
}

} // verus!
