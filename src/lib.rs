//! A small desktop-monitor core: a bounded, sorted listing of directory
//! entry names, and the tick-by-tick decisions of a periodic CPU-usage
//! publisher.
pub mod clock;
pub mod listing;
pub mod publisher;
