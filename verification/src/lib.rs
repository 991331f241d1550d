//! Icon inference for web sites: scrape a page for icon links, resolve them,
//! download and decode each candidate, and pick the largest icon.
//!
//! The engine is split into small verified stages; the network, the HTML
//! parser, the URL library and the image decoder are reached through trusted
//! wrappers whose contracts name what those libraries compute.

pub mod error;
pub mod infer;
pub mod text;
pub mod ui;

pub use infer::{infer_icon, infer_name, Size};
