//! A declarative HTTP request runner: schema merging, environment
//! resolution, dependency ordering, request construction and the steps of a
//! call.
pub mod value;
pub mod error;
pub mod interp;
pub mod schema;
pub mod graph;
pub mod merge;
pub mod env;
pub mod http;
pub mod request;
pub mod runner;
pub mod call;
