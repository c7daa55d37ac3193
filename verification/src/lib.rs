//! Tracks a vendor's published security-advisory listing.
//!
//! The library parses an HTML advisory-list page into a normalized sequence
//! of advisory records, decides which of them are new against the set already
//! stored for the same year, and plans the order in which new ones are
//! persisted and announced. Fetching the page, talking to the store and
//! sending notifications are left to the surrounding program; everything
//! here is pure logic over plain values, stated and proved.

pub mod advisor;
pub mod novelty;
pub mod parser;
pub mod pipeline;
