//! Verified core of a terminal system-information tool.
//!
//! The library holds the pure logic: single-pass text scanners for
//! pseudo-file buffers, a fixed-layout display-descriptor decoder, a sorted
//! art-entry registry with wildcard fallback, an escape-sequence-aware
//! compositor, and the label formatting that assembles a snapshot. All I/O,
//! subprocess and thread handling lives outside the library and hands it
//! plain values.

pub mod scan;
pub mod search;
pub mod meminfo;
pub mod fmt;
pub mod edid;
pub mod text;
pub mod strconv;
pub mod sysinfo;
pub mod compose;
pub mod logos;
pub mod osrelease;
pub mod cpu;
pub mod shellver;
pub mod themecfg;
pub mod envcache;
