//! Per-request cookie jar: the cookies a request arrived with, what the
//! handlers did to them, and the `Set-Cookie` lines that report the difference.

pub mod codec;
pub mod context;
pub mod handler;
pub mod jar;
pub mod laws;
pub mod model;
pub mod record;
pub mod response;
