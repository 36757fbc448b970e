//! A small file-serving request server: a request parser, a responder and
//! the bookkeeping of a worker pool, all verified.

pub mod dispatch;
pub mod headers;
pub mod pool;
pub mod request;
pub mod response;
pub mod text;
