//! A bounded, cancellable, progressive directory-content search engine.
//!
//! Given a root directory and a text or regex query, the engine walks the
//! directory tree, collects line-level matches per file, and streams partial
//! progress to an observer, while respecting hard resource caps, a wall-clock
//! timeout, and out-of-band cancellation.
//!
//! The library holds the pure logic: query compilation, file classification,
//! line scanning, traversal scheduling, result aggregation and the
//! cancellation slot. All filesystem access, timers and event delivery live
//! in the surrounding application, which feeds plain values into the engine.

pub mod cancel;
pub mod constants;
pub mod engine;
pub mod pattern;
pub mod platform;
pub mod scan;
pub mod session;
pub mod text;
pub mod types;
pub mod watch;

