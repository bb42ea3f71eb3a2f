//! Core logic of a small reddit link crawler: what to fetch, how to name what
//! is saved, what to remember about failed requests, and the state of the
//! dashboard counter.

pub mod counter;
pub mod decimal;
pub mod crawl;
pub mod words;
pub mod reddit;
pub mod command;
pub mod matrix;
