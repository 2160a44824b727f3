//! Extraction pipeline for mindful-session records from a personal-health
//! XML export: recognizes the matching elements, resolves each start/end
//! timestamp pair into a minute/second duration, tallies per-source counts
//! into a sorted summary, and renders the resolved records as CSV rows.
pub mod aggregate;
pub mod numerals;
pub mod pipeline;
pub mod records;
pub mod resolve;
pub mod tabular;
pub mod xmlscan;
