//! Deterministic report layout: protocol checks, text measurement and
//! wrapping, and page plans for tickets, A4 reports and ID cards.

pub mod strings;
pub mod text;
pub mod protocol;
pub mod plan;
pub mod render;
pub mod batch;
