//! Helpers that are not tied to one kind of analysis.

pub mod fs_utils;
pub mod string_utils;
