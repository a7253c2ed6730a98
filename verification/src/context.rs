//! What a handler reaches through its request: the jar and the data store.

use vstd::prelude::*;

verus! {

/// What a handler may ask its context for.
#[derive(Clone, Copy, Debug, PartialEq, Eq)]
pub enum Capability {
    /// The cookie jar of the request.
    CookieJar,
    /// The handle to the data store.
    DataAccess,
}

/// The collaborators of one request, each held by its handle: `J` leads to the
/// jar, `D` to the data store. The context hands out the handles it was given
/// and never makes one itself.
pub struct RequestContext<J, D> {
    jar: Option<J>,
    data: Option<D>,
}

impl<J, D> RequestContext<J, D> {
    /// The handle to the jar, if one was attached.
    pub closed spec fn jar_handle(&self) -> Option<J> {
        self.jar
    }

    /// The handle to the data store, if one was attached.
    pub closed spec fn data_handle(&self) -> Option<D> {
        self.data
    }

    /// Whether the context can answer a request for `capability`.
    pub open spec fn provides(&self, capability: Capability) -> bool {
        match capability {
            Capability::CookieJar => self.jar_handle() is Some,
            Capability::DataAccess => self.data_handle() is Some,
        }
    }

    /// A context with nothing attached.
    pub fn new() -> (context: Self)
        ensures
            context.jar_handle() is None,
            context.data_handle() is None,
    {
        RequestContext { jar: None, data: None }
    }

    /// The context of a request with the jar behind `jar` and the store behind `data`.
    pub fn attach(jar: J, data: D) -> (context: Self)
        ensures
            context.jar_handle() == Some(jar),
            context.data_handle() == Some(data),
    {
        RequestContext { jar: Some(jar), data: Some(data) }
    }

    /// This context with `jar` as its jar.
    pub fn with_jar(self, jar: J) -> (context: Self)
        ensures
            context.jar_handle() == Some(jar),
            context.data_handle() == self.data_handle(),
    {
        RequestContext { jar: Some(jar), data: self.data }
    }

    /// This context with `data` as its data store.
    pub fn with_data(self, data: D) -> (context: Self)
        ensures
            context.jar_handle() == self.jar_handle(),
            context.data_handle() == Some(data),
    {
        RequestContext { jar: self.jar, data: Some(data) }
    }

    /// Whether `capability` was attached.
    pub fn has(&self, capability: Capability) -> (held: bool)
        ensures
            held == self.provides(capability),
    {
        match capability {
            Capability::CookieJar => self.jar.is_some(),
            Capability::DataAccess => self.data.is_some(),
        }
    }

    /// The jar of this request: the handle that was attached, not a copy and
    /// not a new jar. To ask a context without a jar is a mistake of the caller.
    pub fn jar(&self) -> (jar: &J)
        requires
            self.provides(Capability::CookieJar),
        ensures
            self.jar_handle() == Some(*jar),
    {
        self.jar.as_ref().unwrap()
    }

    /// The data store of this request. To ask a context without one is a
    /// mistake of the caller.
    pub fn data(&self) -> (data: &D)
        requires
            self.provides(Capability::DataAccess),
        ensures
            self.data_handle() == Some(*data),
    {
        self.data.as_ref().unwrap()
    }
}

} // verus!
