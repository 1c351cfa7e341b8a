//! A verified model of an HTTP edge layer: a router that maps (method, path)
//! pairs to handlers, and the middleware pipeline around it — resource
//! injection, timeout enforcement, body interception, error normalization and
//! not-found rewriting.  Handlers themselves are external collaborators; the
//! library decides, for every request, which handler runs and exactly which
//! response leaves the process.

pub mod config;
pub mod envelope;
pub mod interceptor;
pub mod pipeline;
pub mod pool;
pub mod router;
