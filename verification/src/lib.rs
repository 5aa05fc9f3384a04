//! A lookahead buffer for fallible, pull-based sequence sources.
//!
//! A [`buffer::LookaheadBuffer`] wraps a [`source::Source`] — a stateful
//! producer that, when asked, either yields the next element, signals
//! end-of-sequence, or fails with an error — and lets a consumer peek at
//! upcoming elements (singly, at an offset, or as a window) without
//! consuming them, while still supporting on-demand consumption.
//!
//! Elements are pulled from the source lazily: only when a request needs
//! more lookahead than is already buffered. The order of elements as
//! observed through peeks and consumption is exactly the order the source
//! produces them in; a failure aborts the pull sequence that hit it but
//! leaves every previously pulled element in place.

pub mod buffer;
pub mod fill;
pub mod scripted;
pub mod source;

