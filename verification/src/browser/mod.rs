//! Browser targets reported by a DevTools endpoint, and the pages among them.

pub mod brave;
pub mod chromium;
