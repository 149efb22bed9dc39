//! Verified core of a package-index loader: an XML-backed record parser with
//! lenient field defaulting and obsolete-subtree exclusion, a category
//! aggregator, a lossless binary snapshot codec, and a tiered cache manager
//! with modification-time staleness detection.

pub mod record;
pub mod text;
pub mod xmltree;
pub mod parser;
pub mod aggregate;
pub mod codec;
pub mod cache;
pub mod events;
pub mod theme;
pub mod stats;
