//! Collector for a line-oriented, header-based telephony management
//! protocol: framing of the byte stream into header-keyed messages, the
//! per-connection session life cycle, and the aggregation of events into
//! rotating log records and parameterized database inserts.

pub mod aggregator;
pub mod clock;
pub mod date;
pub mod framer;
pub mod json;
pub mod message;
pub mod rules;
pub mod session;
pub mod settings;
pub mod sink;
pub mod text;
