//! Transaction tools.

pub mod spam;
