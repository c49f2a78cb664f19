//! Build-time support for test functions that set up logging and tracing
//! before their bodies run.
//!
//! The crate models a test declaration and the configuration attributes
//! attached to it, checks and extracts that configuration, and rewrites the
//! declaration so that the emitted test initializes a leveled logger and a
//! tracing subscriber before delegating to the original body.  A separate
//! runtime helper interprets the span-event filter read from the environment.

pub mod attrs;
pub mod log_filter;
pub mod rewrite;
pub mod span_events;
pub mod text;
