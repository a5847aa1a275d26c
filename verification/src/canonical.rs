//! What the parser gives is fit to be printed and parsed again.
//!
//! The laws of the modules under this one say, rule by rule, that a value
//! which the rule has read meets the conditions under which its source text
//! reads back as the same value.

pub mod item;
pub mod param;
pub mod path;
