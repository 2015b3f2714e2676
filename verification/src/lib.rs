//! Workspace and browser-page bookkeeping for an agent that drives a desktop.
//!
//! `wm` turns a sway layout tree into a map from workspace names to the
//! applications that run in them; `browser` selects and lists browser pages
//! from the targets that a DevTools endpoint reports.

pub mod browser;
pub mod wm;
