//! Window-manager layout trees.

pub mod sway;
