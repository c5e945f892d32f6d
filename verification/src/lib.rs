//! A small static-file server core: a verified job-dispatch pool, the
//! request classifier it feeds, and the text formats around them.

pub mod config;
pub mod handler;
pub mod logger;
pub mod pool;
pub mod protocol;
pub mod registry;
pub mod text;
