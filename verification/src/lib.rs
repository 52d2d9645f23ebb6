//! A checked view of C-style program arguments.
//!
//! A native entry point receives an argument count and a table of
//! NUL-terminated byte strings. [`Args`] is a borrowed, immutable view of
//! such a table that hands the arguments out as `&str`, either after
//! checking once that every argument is well-formed UTF-8 or on the caller's
//! word that it is.

pub mod args;
pub mod cstr;

pub use args::{Args, IntoIter};
pub use cstr::{c_str_to_rust, c_str_to_rust_unchecked, strlen};
