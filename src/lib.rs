//! A terminal log viewer's core: a bounded, filterable, selectable log buffer,
//! a decoder of raw terminal key bytes, the filter-token extractor, and the text
//! that the views show.

pub mod classify;
pub mod display;
pub mod filter;
pub mod json;
pub mod keys;
pub mod log;
pub mod source;
pub mod text;
pub mod tools;
pub mod views;
